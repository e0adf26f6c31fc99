//! SHA-256 digests, written in hexadecimal.

use sha2::Digest;
use vstd::prelude::*;

verus! {

/// The SHA-256 digest of some bytes.
pub uninterp spec fn sha256(data: Seq<u8>) -> Seq<u8>;

/// `Sha256::digest` hashes all of `data` at once. Its result depends on the
/// bytes alone and has 32 of them.
#[verifier::external_body]
fn sha256_digest(data: &[u8]) -> (r: Vec<u8>)
    ensures
        r@ == sha256(data@),
        r@.len() == 32,
{
    sha2::Sha256::digest(data).to_vec()
}

/// The lower-case hexadecimal digit of a number below sixteen.
pub open spec fn hex_digit(n: int) -> char {
    if n < 10 {
        (48 + n) as char
    } else {
        (87 + n) as char
    }
}

/// Bytes in lower-case hexadecimal, two digits each.
pub open spec fn hex(bytes: Seq<u8>) -> Seq<char>
    decreases bytes.len(),
{
    if bytes.len() == 0 {
        Seq::empty()
    } else {
        let b = bytes.last() as int;
        hex(bytes.drop_last()).push(hex_digit(b / 16)).push(hex_digit(b % 16))
    }
}

/// The digest of some bytes as the library writes and compares it.
pub open spec fn sha256_text(data: Seq<u8>) -> Seq<char> {
    hex(sha256(data))
}

/// Whether `c` is a digit of lower-case hexadecimal.
pub open spec fn is_hex_lower(c: char) -> bool {
    ('0' <= c && c <= '9') || ('a' <= c && c <= 'f')
}

fn hex_char(n: u8) -> (r: char)
    requires
        n < 16,
    ensures
        r == hex_digit(n as int),
{
    let code: u8 = if n < 10 {
        48 + n
    } else {
        87 + n
    };
    code as char
}

/// Bytes in lower-case hexadecimal.
pub fn to_hex(bytes: &[u8]) -> (r: String)
    ensures
        r@ == hex(bytes@),
{
    let mut r = String::new();
    let mut i: usize = 0;
    while i < bytes.len()
        invariant
            i <= bytes@.len(),
            r@ == hex(bytes@.take(i as int)),
        decreases bytes@.len() - i,
    {
        let b: u8 = bytes[i];
        r.push(hex_char(b / 16));
        r.push(hex_char(b % 16));
        i += 1;
        assert(bytes@.take(i as int).drop_last() =~= bytes@.take(i - 1));
    }
    assert(bytes@.take(bytes@.len() as int) =~= bytes@);
    r
}

/// The SHA-256 digest of `bytes`, in lower-case hexadecimal.
pub fn hex_digest(bytes: &[u8]) -> (r: String)
    ensures
        r@ == sha256_text(bytes@),
        r@.len() == 64,
        forall|i: int| 0 <= i < r@.len() ==> is_hex_lower(#[trigger] r@[i]),
{
    let digest = sha256_digest(bytes);
    proof {
        lemma_hex_shape(digest@);
    }
    to_hex(digest.as_slice())
}

/// Hexadecimal has two lower-case digits for each byte.
pub proof fn lemma_hex_shape(bytes: Seq<u8>)
    ensures
        hex(bytes).len() == 2 * bytes.len(),
        forall|i: int| 0 <= i < hex(bytes).len() ==> is_hex_lower(#[trigger] hex(bytes)[i]),
    decreases bytes.len(),
{
    if bytes.len() > 0 {
        lemma_hex_shape(bytes.drop_last());
    }
}

/// Different bytes have different hexadecimal: to compare the texts is to
/// compare the digests.
pub proof fn law_hex_is_injective(a: Seq<u8>, b: Seq<u8>)
    requires
        hex(a) == hex(b),
    ensures
        a == b,
    decreases a.len(),
{
    lemma_hex_shape(a);
    lemma_hex_shape(b);
    if a.len() > 0 {
        let n = hex(a).len();
        assert(hex(a).drop_last().drop_last() =~= hex(a.drop_last()));
        assert(hex(b).drop_last().drop_last() =~= hex(b.drop_last()));
        law_hex_is_injective(a.drop_last(), b.drop_last());
        assert(hex(a)[n - 2] == hex_digit(a.last() as int / 16));
        assert(hex(b)[n - 2] == hex_digit(b.last() as int / 16));
        assert(hex(a)[n - 1] == hex_digit(a.last() as int % 16));
        assert(hex(b)[n - 1] == hex_digit(b.last() as int % 16));
        assert(a.last() == b.last());
        assert(a =~= a.drop_last().push(a.last()));
        assert(b =~= b.drop_last().push(b.last()));
    } else {
        assert(a =~= b);
    }
}

/// Hexadecimal says what each byte is: the two digits at its place are those of
/// its high and its low half, in lower case.
pub proof fn law_hex_says_each_byte(bytes: Seq<u8>, i: int)
    requires
        0 <= i < bytes.len(),
    ensures
        hex(bytes).len() == 2 * bytes.len(),
        hex(Seq::empty()) == Seq::<char>::empty(),
        ({
            let digits = seq![
                '0', '1', '2', '3', '4', '5', '6', '7', '8', '9', 'a', 'b', 'c', 'd', 'e', 'f',
            ];
            &&& hex(bytes)[2 * i] == digits[bytes[i] as int / 16]
            &&& hex(bytes)[2 * i + 1] == digits[bytes[i] as int % 16]
        }),
    decreases bytes.len(),
{
    lemma_hex_shape(bytes);
    let front = bytes.drop_last();
    lemma_hex_shape(front);
    if i < front.len() {
        law_hex_says_each_byte(front, i);
        assert(hex(bytes)[2 * i] == hex(front)[2 * i]);
        assert(hex(bytes)[2 * i + 1] == hex(front)[2 * i + 1]);
    }
}

/// The text by which contents are compared says every byte of the SHA-256 digest
/// of all of them: two texts are the same just where the digests are.
pub proof fn law_digest_text_says_the_whole_digest(a: Seq<u8>, b: Seq<u8>, i: int)
    requires
        0 <= i < sha256(a).len(),
    ensures
        sha256_text(a) == sha256_text(b) <==> sha256(a) == sha256(b),
        sha256_text(a).len() == 2 * sha256(a).len(),
        ({
            let digits = seq![
                '0', '1', '2', '3', '4', '5', '6', '7', '8', '9', 'a', 'b', 'c', 'd', 'e', 'f',
            ];
            &&& sha256_text(a)[2 * i] == digits[sha256(a)[i] as int / 16]
            &&& sha256_text(a)[2 * i + 1] == digits[sha256(a)[i] as int % 16]
        }),
{
    law_hex_says_each_byte(sha256(a), i);
    if sha256_text(a) == sha256_text(b) {
        law_hex_is_injective(sha256(a), sha256(b));
    }
}

/// The digits of lower-case hexadecimal are `0` to `9` and `a` to `f`.
pub proof fn law_lower_hex_digits(c: char)
    ensures
        is_hex_lower(c) <==> seq![
            '0', '1', '2', '3', '4', '5', '6', '7', '8', '9', 'a', 'b', 'c', 'd', 'e', 'f',
        ].contains(c),
{
    let digits = seq![
        '0', '1', '2', '3', '4', '5', '6', '7', '8', '9', 'a', 'b', 'c', 'd', 'e', 'f',
    ];
    if is_hex_lower(c) {
        let at = if c <= '9' {
            c as int - '0' as int
        } else {
            c as int - 'a' as int + 10
        };
        assert(digits[at] == c);
    }
}

} // verus!
