//! Paths as Unix has them: bytes that slashes part into names.
//!
//! Two paths are the same path when their components are: repeated slashes, a
//! slash at the end and a `.` within a path do not tell paths apart.

use vstd::prelude::*;
use vstd::std_specs::cmp::PartialEqSpec;
use vstd::utf8::*;

verus! {

/// What `String::from_utf8_lossy` makes of bytes that need not be UTF-8.
pub uninterp spec fn utf8_lossy(bytes: Seq<u8>) -> Seq<char>;

/// `String::from_utf8_lossy` decodes UTF-8 as it stands; where the bytes are
/// not UTF-8, what it puts in place of the invalid ones is left to it.
#[verifier::external_body]
pub(crate) fn from_utf8_lossy(bytes: &[u8]) -> (r: String)
    ensures
        r@ == utf8_lossy(bytes@),
        valid_utf8(bytes@) ==> r@ == decode_utf8(bytes@),
{
    String::from_utf8_lossy(bytes).into_owned()
}

/// The byte that parts the names of a path.
pub const SLASH: u8 = 47;

/// The byte `.`.
pub const DOT: u8 = 46;

/// The bytes between the slashes, before the first and after the last.
pub open spec fn pieces(b: Seq<u8>) -> Seq<Seq<u8>>
    decreases b.len(),
{
    if b.len() == 0 {
        seq![Seq::empty()]
    } else {
        let before = pieces(b.drop_last());
        if b.last() == SLASH {
            before.push(Seq::empty())
        } else {
            before.drop_last().push(before.last().push(b.last()))
        }
    }
}

/// Whether a piece names something: it is neither empty nor `.`.
pub open spec fn is_name(piece: Seq<u8>) -> bool {
    piece.len() > 0 && piece != seq![DOT]
}

/// The pieces that name something.
pub open spec fn named(ps: Seq<Seq<u8>>) -> Seq<Seq<u8>>
    decreases ps.len(),
{
    if ps.len() == 0 {
        Seq::empty()
    } else if is_name(ps.last()) {
        named(ps.drop_last()).push(ps.last())
    } else {
        named(ps.drop_last())
    }
}

/// The components of a path, by which paths are compared.
#[verifier::ext_equal]
pub struct PathKey {
    /// The path starts at the root.
    pub rooted: bool,
    /// The path is relative and starts with `.`.
    pub here: bool,
    /// Its names, `..` among them.
    pub names: Seq<Seq<u8>>,
}

/// The components of the path with the bytes `b`.
pub open spec fn key_of(b: Seq<u8>) -> PathKey {
    PathKey {
        rooted: b.len() > 0 && b[0] == SLASH,
        here: pieces(b)[0] == seq![DOT],
        names: named(pieces(b)),
    }
}

/// A number that bytes give, mixed into another.
pub open spec fn mixed(seed: nat, bytes: Seq<u8>) -> nat
    decreases bytes.len(),
{
    if bytes.len() == 0 {
        seed
    } else {
        (mixed(seed, bytes.drop_last()) * 31 + bytes.last()) as nat % 0x1_0000_0000
    }
}

/// A number that names give, one after the other, each with a slash behind it.
pub open spec fn names_number(names: Seq<Seq<u8>>) -> nat
    decreases names.len(),
{
    if names.len() == 0 {
        0
    } else {
        mixed(names_number(names.drop_last()), names.last().push(SLASH))
    }
}

/// A number by which paths are spread: that of their names, so that the same
/// path has the same one however it is spelled.
pub open spec fn number_of(k: PathKey) -> u64 {
    names_number(k.names) as u64
}

/// Mixes one more byte into a number.
fn mix(seed: u64, byte: u8) -> (r: u64)
    requires
        seed < 0x1_0000_0000,
    ensures
        r == (seed * 31 + byte) % 0x1_0000_0000,
{
    (seed * 31 + byte as u64) % 0x1_0000_0000
}

/// The last name of a path, where it is neither missing nor `..`.
pub open spec fn last_name(k: PathKey) -> Option<Seq<u8>> {
    if k.names.len() == 0 || k.names.last() == seq![DOT, DOT] {
        None
    } else {
        Some(k.names.last())
    }
}

/// The bytes of `base` with `name` put after them: a rooted name takes the
/// place of the whole, and a slash parts the two where the base has none.
pub open spec fn joined(base: Seq<u8>, name: Seq<u8>) -> Seq<u8> {
    if name.len() > 0 && name[0] == SLASH {
        name
    } else if base.len() > 0 && base.last() != SLASH {
        base.push(SLASH) + name
    } else {
        base + name
    }
}

/// The bytes that a list holds.
pub open spec fn views(v: Seq<Vec<u8>>) -> Seq<Seq<u8>> {
    Seq::new(v.len(), |i: int| v[i]@)
}

/// Whether two byte strings are equal.
pub fn same_bytes(a: &[u8], b: &[u8]) -> (r: bool)
    ensures
        r == (a@ == b@),
{
    if a.len() != b.len() {
        return false;
    }
    let mut i: usize = 0;
    while i < a.len()
        invariant
            i <= a@.len(),
            a@.len() == b@.len(),
            forall|j: int| 0 <= j < i ==> a@[j] == b@[j],
        decreases a@.len() - i,
    {
        if a[i] != b[i] {
            return false;
        }
        i += 1;
    }
    assert(a@ =~= b@);
    true
}

/// A copy of some bytes.
pub fn copy_bytes(b: &[u8]) -> (r: Vec<u8>)
    ensures
        r@ == b@,
{
    let mut r: Vec<u8> = Vec::new();
    let mut i: usize = 0;
    while i < b.len()
        invariant
            i <= b@.len(),
            r@ == b@.subrange(0, i as int),
        decreases b@.len() - i,
    {
        r.push(b[i]);
        i += 1;
        assert(b@.subrange(0, i as int) == b@.subrange(0, i - 1).push(b@[i - 1]));
    }
    assert(b@.subrange(0, b@.len() as int) == b@);
    r
}

fn names_something(piece: &Vec<u8>) -> (r: bool)
    ensures
        r == is_name(piece@),
{
    let r = piece.len() > 0 && !(piece.len() == 1 && piece[0] == DOT);
    assert(piece@.len() == 1 ==> (piece@[0] == DOT <==> piece@ =~= seq![DOT]));
    r
}

/// Whether bytes are a name as a directory lists it: one piece that is neither
/// `.` nor `..`.
pub open spec fn is_entry_name(name: Seq<u8>) -> bool {
    &&& is_name(name)
    &&& name != seq![DOT, DOT]
    &&& forall|i: int| 0 <= i < name.len() ==> #[trigger] name[i] != SLASH
}

/// Bytes without a slash lengthen the last piece.
proof fn lemma_pieces_append(a: Seq<u8>, b: Seq<u8>)
    requires
        forall|i: int| 0 <= i < b.len() ==> #[trigger] b[i] != SLASH,
    ensures
        pieces(a).len() > 0,
        pieces(a + b) == pieces(a).drop_last().push(pieces(a).last() + b),
    decreases a.len() + b.len(),
{
    if b.len() == 0 {
        if a.len() > 0 {
            lemma_pieces_append(a.drop_last(), b);
        }
        assert(a + b =~= a);
        assert(pieces(a).last() + b =~= pieces(a).last());
        assert(pieces(a).drop_last().push(pieces(a).last()) =~= pieces(a));
    } else {
        lemma_pieces_append(a, b.drop_last());
        assert((a + b).drop_last() =~= a + b.drop_last());
        assert((a + b).last() == b.last());
        let before = pieces(a).drop_last().push(pieces(a).last() + b.drop_last());
        assert(before.drop_last() =~= pieces(a).drop_last());
        assert((pieces(a).last() + b.drop_last()).push(b.last()) =~= pieces(a).last() + b);
    }
}

/// The root has no name.
pub proof fn lemma_root_has_no_name()
    ensures
        last_name(key_of(seq![SLASH])) is None,
{
    let b: Seq<u8> = seq![SLASH];
    assert(b.drop_last() =~= Seq::<u8>::empty());
    let e: Seq<Seq<u8>> = seq![Seq::empty()];
    assert(pieces(Seq::<u8>::empty()) =~= e);
    assert(pieces(b) =~= e.push(Seq::empty()));
    assert(e.push(Seq::empty()).drop_last() =~= e);
    assert(e.drop_last() =~= Seq::<Seq<u8>>::empty());
    reveal_with_fuel(named, 3);
}

/// A path that a listed name was joined to has one more name, that one.
pub proof fn law_joined_path_has_one_more_name(base: Seq<u8>, name: Seq<u8>)
    requires
        is_entry_name(name),
    ensures
        key_of(joined(base, name)) == (PathKey {
            names: key_of(base).names.push(name),
            ..key_of(base)
        }),
{
    assert(name[0] != SLASH);
    let none: Seq<u8> = Seq::empty();
    assert(none + name =~= name);
    let front = if base.len() == 0 || base.last() == SLASH {
        base
    } else {
        base.push(SLASH)
    };
    assert(base.push(SLASH).drop_last() =~= base);
    assert(joined(base, name) =~= front + name);
    lemma_pieces_append(base, none);
    lemma_pieces_append(front, name);
    assert(pieces(none) =~= seq![none]);
    assert(pieces(front).last() =~= none);
    let all = pieces(joined(base, name));
    let before = pieces(front).drop_last();
    assert(all =~= before.push(name));
    assert(all.drop_last() =~= before);
    assert(named(all) == named(before).push(name));
    if base.len() == 0 {
        assert(before =~= Seq::<Seq<u8>>::empty());
        assert(pieces(base).drop_last() =~= Seq::<Seq<u8>>::empty());
        assert(named(pieces(base)) =~= named(before));
        assert(joined(base, name) =~= name);
    } else {
        if base.last() == SLASH {
            assert(named(pieces(base)) == named(before));
            lemma_pieces_append(base.drop_last(), none);
            assert(pieces(base) =~= pieces(base.drop_last()).push(none));
        } else {
            assert(pieces(front) =~= pieces(base).push(none));
            assert(before =~= pieces(base));
        }
        assert(all[0] == pieces(base)[0]);
        assert(joined(base, name)[0] == base[0]);
    }
}

/// The last name of a path that a listed name was joined to is that name.
pub proof fn law_joined_name_is_the_last(base: Seq<u8>, name: Seq<u8>)
    requires
        is_entry_name(name),
    ensures
        last_name(key_of(joined(base, name))) == Some(name),
{
    law_joined_path_has_one_more_name(base, name);
}

/// A path.
#[derive(Debug)]
pub struct UnixPath {
    pub bytes: Vec<u8>,
}

impl View for UnixPath {
    type V = Seq<u8>;

    open spec fn view(&self) -> Seq<u8> {
        self.bytes@
    }
}

impl Clone for UnixPath {
    fn clone(&self) -> (r: Self)
        ensures
            r@ == self@,
    {
        UnixPath { bytes: copy_bytes(self.bytes.as_slice()) }
    }
}

impl PartialEq for UnixPath {
    fn eq(&self, other: &Self) -> (r: bool) {
        self.same_path(other)
    }
}

impl vstd::std_specs::cmp::PartialEqSpecImpl for UnixPath {
    open spec fn obeys_eq_spec() -> bool {
        true
    }

    open spec fn eq_spec(&self, other: &Self) -> bool {
        self.key() == other.key()
    }
}

impl Eq for UnixPath {

}

impl UnixPath {
    /// The components by which the path is compared.
    pub open spec fn key(&self) -> PathKey {
        key_of(self.bytes@)
    }

    /// The path that a text spells.
    pub fn new(s: &str) -> (r: UnixPath)
        ensures
            r@ == encode_utf8(s@),
    {
        UnixPath { bytes: copy_bytes(s.as_bytes()) }
    }

    /// The names of the path and whether its first piece is `.`.
    fn names(&self) -> (r: (Vec<Vec<u8>>, bool))
        ensures
            views(r.0@) == self.key().names,
            r.1 == self.key().here,
    {
        let ghost b = self.bytes@;
        let n: usize = self.bytes.len();
        let mut names: Vec<Vec<u8>> = Vec::new();
        let mut here: bool = false;
        let mut first: bool = true;
        let mut piece: Vec<u8> = Vec::new();
        let mut i: usize = 0;
        assert(piece@ =~= Seq::<u8>::empty());
        assert(pieces(b.take(0)).drop_last() =~= Seq::<Seq<u8>>::empty());
        assert(views(names@) =~= named(pieces(b.take(0)).drop_last()));
        while i < n
            invariant
                i <= n == b.len(),
                b == self.bytes@,
                pieces(b.take(i as int)).len() > 0,
                pieces(b.take(i as int)).last() == piece@,
                views(names@) == named(pieces(b.take(i as int)).drop_last()),
                first == (pieces(b.take(i as int)).len() == 1),
                !first ==> here == (pieces(b.take(i as int))[0] == seq![DOT]),
            decreases n - i,
        {
            let ghost before = pieces(b.take(i as int));
            assert(b.take(i + 1).drop_last() =~= b.take(i as int));
            assert(b.take(i + 1).last() == b[i as int]);
            let c: u8 = self.bytes[i];
            if c == SLASH {
                if first {
                    here = is_dot(&piece);
                    first = false;
                }
                assert(before.push(Seq::empty()).drop_last() =~= before);
                let ghost held = names@;
                if names_something(&piece) {
                    names.push(piece);
                    assert(views(names@) =~= views(held).push(before.last()));
                }
                piece = Vec::new();
                assert(piece@ =~= Seq::<u8>::empty());
            } else {
                piece.push(c);
                let ghost now = before.drop_last().push(before.last().push(c));
                assert(now.drop_last() =~= before.drop_last());
                assert(now.len() > 1 ==> now[0] == before[0]);
            }
            i += 1;
        }
        assert(b.take(n as int) =~= b);
        if first {
            here = is_dot(&piece);
        }
        let ghost held = names@;
        if names_something(&piece) {
            names.push(piece);
            assert(views(names@) =~= views(held).push(pieces(b).last()));
        }
        (names, here)
    }

    /// The number by which the path is spread.
    pub fn number(&self) -> (r: u64)
        ensures
            r == number_of(self.key()),
    {
        let (names, _) = self.names();
        let ghost all = self.key().names;
        let mut n: u64 = 0;
        let mut i: usize = 0;
        assert(all.take(0) =~= Seq::<Seq<u8>>::empty());
        while i < names.len()
            invariant
                i <= names@.len(),
                views(names@) == all,
                n == names_number(all.take(i as int)),
                n < 0x1_0000_0000,
            decreases names@.len() - i,
        {
            let name = &names[i];
            let ghost seed = n as nat;
            let mut j: usize = 0;
            assert(name@.take(0) =~= Seq::<u8>::empty());
            while j < name.len()
                invariant
                    j <= name@.len(),
                    n == mixed(seed, name@.take(j as int)),
                    n < 0x1_0000_0000,
                decreases name@.len() - j,
            {
                assert(name@.take(j + 1).drop_last() =~= name@.take(j as int));
                n = mix(n, name[j]);
                j += 1;
            }
            assert(name@.take(name@.len() as int) =~= name@);
            assert(name@.push(SLASH).drop_last() =~= name@);
            n = mix(n, SLASH);
            assert(all.take(i + 1).drop_last() =~= all.take(i as int));
            assert(all.take(i + 1).last() == name@);
            i += 1;
        }
        assert(names@.len() == all.len());
        assert(all.take(all.len() as int) =~= all);
        n
    }

    /// Whether two paths have the same components.
    pub fn same_path(&self, other: &UnixPath) -> (r: bool)
        ensures
            r == (self.key() == other.key()),
    {
        let rooted = self.bytes.len() > 0 && self.bytes[0] == SLASH;
        let other_rooted = other.bytes.len() > 0 && other.bytes[0] == SLASH;
        let (a, here) = self.names();
        let (b, other_here) = other.names();
        if rooted != other_rooted || here != other_here || a.len() != b.len() {
            assert(views(a@).len() == a@.len() && views(b@).len() == b@.len());
            return false;
        }
        let mut i: usize = 0;
        while i < a.len()
            invariant
                i <= a@.len(),
                a@.len() == b@.len(),
                views(a@) == self.key().names,
                views(b@) == other.key().names,
                forall|j: int| 0 <= j < i ==> views(a@)[j] == views(b@)[j],
            decreases a@.len() - i,
        {
            if !same_bytes(a[i].as_slice(), b[i].as_slice()) {
                assert(views(a@)[i as int] != views(b@)[i as int]);
                return false;
            }
            i += 1;
        }
        assert(views(a@) =~= views(b@));
        assert(self.key() =~= other.key());
        true
    }

    /// The last name of the path: `None` where it has no name or ends in `..`.
    pub fn file_name(&self) -> (r: Option<Vec<u8>>)
        ensures
            match r {
                Some(name) => last_name(self.key()) == Some(name@),
                None => last_name(self.key()) is None,
            },
    {
        let (names, _here) = self.names();
        let mut names = names;
        assert(views(names@).len() == names@.len());
        let ghost all = names@;
        match names.pop() {
            None => None,
            Some(name) => {
                assert(views(all).last() == name@);
                if name.len() == 2 && name[0] == DOT && name[1] == DOT {
                    assert(name@ =~= seq![DOT, DOT]);
                    None
                } else {
                    assert(name@ != seq![DOT, DOT]);
                    Some(name)
                }
            },
        }
    }

    /// The path with `name` put after it.
    pub fn join(&self, name: &[u8]) -> (r: UnixPath)
        ensures
            r@ == joined(self@, name@),
    {
        if name.len() > 0 && name[0] == SLASH {
            return UnixPath { bytes: copy_bytes(name) };
        }
        let mut bytes = copy_bytes(self.bytes.as_slice());
        let n: usize = bytes.len();
        if n > 0 && bytes[n - 1] != SLASH {
            bytes.push(SLASH);
        }
        let mut tail = copy_bytes(name);
        bytes.append(&mut tail);
        UnixPath { bytes }
    }

    /// The path as text, for people to read.
    pub fn display(&self) -> (r: String)
        ensures
            r@ == utf8_lossy(self@),
            valid_utf8(self@) ==> r@ == decode_utf8(self@),
    {
        from_utf8_lossy(self.bytes.as_slice())
    }
}

fn is_dot(piece: &Vec<u8>) -> (r: bool)
    ensures
        r == (piece@ == seq![DOT]),
{
    let r = piece.len() == 1 && piece[0] == DOT;
    assert(r <==> piece@ =~= seq![DOT]);
    r
}

proof fn lemma_pieces_of_both(a: Seq<u8>, b: Seq<u8>)
    ensures
        pieces(a).len() > 0,
        pieces(b).len() > 0,
        pieces(a.push(SLASH) + b) == pieces(a) + pieces(b),
    decreases b.len(),
{
    let none: Seq<u8> = Seq::empty();
    let front = a.push(SLASH);
    lemma_pieces_append(a, none);
    lemma_pieces_append(b, none);
    assert(front.drop_last() =~= a);
    if b.len() == 0 {
        assert(front + b =~= front);
        assert(pieces(a) + pieces(b) =~= pieces(a).push(none));
    } else {
        lemma_pieces_of_both(a, b.drop_last());
        assert((front + b).drop_last() =~= front + b.drop_last());
        assert((front + b).last() == b.last());
        let before = pieces(b.drop_last());
        let both = pieces(a) + before;
        assert(both.last() == before.last());
        assert(both.drop_last() =~= pieces(a) + before.drop_last());
        assert(pieces(front + b) =~= pieces(a) + pieces(b));
    }
}

proof fn lemma_named_of_both(a: Seq<Seq<u8>>, b: Seq<Seq<u8>>)
    ensures
        named(a + b) == named(a) + named(b),
    decreases b.len(),
{
    if b.len() == 0 {
        assert(a + b =~= a);
        assert(named(a) + named(b) =~= named(a));
    } else {
        lemma_named_of_both(a, b.drop_last());
        assert((a + b).drop_last() =~= a + b.drop_last());
        assert((a + b).last() == b.last());
        assert(named(a + b) =~= named(a) + named(b));
    }
}

/// Slashes part a path into its components. The names of two paths with a slash
/// between them are those of the one and then those of the other; what holds no
/// slash is one name, unless it is empty or a single dot.
pub proof fn law_slashes_part_names(a: Seq<u8>, b: Seq<u8>, piece: Seq<u8>)
    requires
        forall|i: int| 0 <= i < piece.len() ==> #[trigger] piece[i] != 47,
    ensures
        key_of(a.push(47) + b).names == key_of(a).names + key_of(b).names,
        key_of(piece).names == if piece.len() == 0 || piece == seq![46u8] {
            Seq::empty()
        } else {
            seq![piece]
        },
{
    lemma_pieces_of_both(a, b);
    lemma_named_of_both(pieces(a), pieces(b));
    lemma_piece(piece);
    reveal_with_fuel(named, 2);
    assert(seq![piece].drop_last() =~= Seq::<Seq<u8>>::empty());
    assert(named(seq![piece]) =~= if piece.len() == 0 || piece == seq![46u8] {
        Seq::empty()
    } else {
        seq![piece]
    });
}

proof fn lemma_piece(piece: Seq<u8>)
    requires
        forall|i: int| 0 <= i < piece.len() ==> #[trigger] piece[i] != SLASH,
    ensures
        pieces(piece) == seq![piece],
{
    let none: Seq<u8> = Seq::empty();
    lemma_pieces_append(none, piece);
    assert(none + piece =~= piece);
    assert(pieces(none) =~= seq![none]);
    assert(pieces(piece) =~= seq![piece]);
}

/// A path is rooted just where it begins with a slash, and it begins here just
/// where its first component is a single dot.
pub proof fn law_path_begins_at_the_root_or_here(first: Seq<u8>, rest: Seq<u8>)
    requires
        forall|i: int| 0 <= i < first.len() ==> #[trigger] first[i] != 47,
    ensures
        key_of(first).here <==> first == seq![46u8],
        key_of(first.push(47) + rest).here <==> first == seq![46u8],
        !key_of(first).rooted,
        key_of(first.push(47) + rest).rooted <==> first.len() == 0,
{
    lemma_piece(first);
    lemma_pieces_of_both(first, rest);
    let s = first.push(47) + rest;
    assert((pieces(first) + pieces(rest))[0] == first);
    if first.len() > 0 {
        assert(s[0] == first[0]);
    } else {
        assert(s[0] == 47);
    }
}

/// The last name of a path is the last of its names, unless that leads up; a path
/// without names has none.
pub proof fn law_last_name_is_the_last_of_the_names(k: PathKey, name: Seq<u8>)
    ensures
        last_name(PathKey { names: k.names.push(name), ..k }) == if name == seq![46u8, 46u8] {
            None
        } else {
            Some(name)
        },
        last_name(PathKey { names: Seq::empty(), ..k }) is None,
{
}

/// To join a path that is not rooted puts it behind the other with one slash
/// between them where there is none yet, and its names behind the other's names; a
/// rooted one takes the place of the whole.
pub proof fn law_join_puts_names_behind_names(base: Seq<u8>, name: Seq<u8>)
    ensures
        name.len() > 0 && name[0] == 47 ==> joined(base, name) == name,
        name.len() == 0 || name[0] != 47 ==> {
            &&& key_of(joined(base, name)).names == key_of(base).names + key_of(name).names
            &&& joined(base, name) == if base.len() == 0 || base.last() == 47 {
                base + name
            } else {
                base + seq![47u8] + name
            }
        },
{
    let none: Seq<u8> = Seq::empty();
    assert(base.push(SLASH) =~= base + seq![47u8]);
    if name.len() == 0 || name[0] != 47 {
        if base.len() == 0 {
            assert(base + name =~= name);
            law_slashes_part_names(none, none, none);
            assert(key_of(base).names + key_of(name).names =~= key_of(name).names) by {
                assert(base =~= none);
            }
        } else if base.last() == SLASH {
            let front = base.drop_last();
            assert(front.push(47) =~= base);
            law_slashes_part_names(front, name, none);
            law_slashes_part_names(front, none, none);
            assert(base + none =~= base);
            assert(key_of(front).names + key_of(none).names =~= key_of(front).names);
        } else {
            law_slashes_part_names(base, name, none);
        }
    }
}

/// What a directory lists is a name without a slash that is neither empty nor one
/// or two dots.
pub proof fn law_entry_names(name: Seq<u8>)
    ensures
        is_entry_name(name) <==> !name.contains(47) && name.len() > 0 && name != seq![46u8]
            && name != seq![46u8, 46u8],
{
    if is_entry_name(name) && name.contains(47) {
        let i = choose|i: int| 0 <= i < name.len() && name[i] == 47;
        assert(name[i] != SLASH);
    }
    if !name.contains(47) {
        assert forall|i: int| 0 <= i < name.len() implies #[trigger] name[i] != SLASH by {
            assert(name.contains(name[i]));
        }
    }
}

/// What a path, and a list of byte strings, says is the bytes it holds.
pub proof fn law_paths_say_their_bytes(p: UnixPath, v: Seq<Vec<u8>>, i: int)
    ensures
        p@ == p.bytes@,
        p.key() == key_of(p.bytes@),
        views(v).len() == v.len(),
        0 <= i < v.len() ==> views(v)[i] == v[i]@,
{
}

/// Two paths are the same path exactly when they start at the same place and have
/// the same names, however they are spelled.
pub proof fn law_same_path_has_the_same_names(a: UnixPath, b: UnixPath)
    ensures
        a.eq_spec(&b) <==> {
            let (x, y) = (key_of(a.bytes@), key_of(b.bytes@));
            x.rooted == y.rooted && x.here == y.here && x.names == y.names
        },
{
}

/// How a path is spelled does not matter: a slash more between two names, a dot
/// between two slashes, and a slash or a dot at the end leave its names as they are.
pub proof fn law_spelling_does_not_tell_paths_apart(a: Seq<u8>, b: Seq<u8>)
    ensures
        key_of(a.push(47).push(47) + b).names == key_of(a.push(47) + b).names,
        key_of(a.push(47).push(46).push(47) + b).names == key_of(a.push(47) + b).names,
        key_of(a.push(47)).names == key_of(a).names,
        key_of(a.push(47).push(46)).names == key_of(a).names,
{
    let none: Seq<u8> = Seq::empty();
    let dot = seq![46u8];
    law_slashes_part_names(a, b, none);
    law_slashes_part_names(a, none, none);
    law_slashes_part_names(a, dot, dot);
    law_slashes_part_names(a.push(47), b, none);
    law_slashes_part_names(a.push(47).push(46), b, none);
    assert(a.push(47) + none =~= a.push(47));
    assert(a.push(47) + dot =~= a.push(47).push(46));
    let names = key_of(a).names;
    assert(names + Seq::<Seq<u8>>::empty() =~= names);
}

} // verus!
