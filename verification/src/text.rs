//! Text as the library reads and writes it: white space, lines, numbers and
//! the building of strings out of characters.

use vstd::prelude::*;

verus! {

/// `String::push` appends one character to the end of the string.
pub assume_specification[ String::push ](s: &mut String, c: char)
    ensures
        final(s)@ == old(s)@.push(c),
;

/// The characters with Unicode's `White_Space` property.
pub open spec fn is_space(c: char) -> bool {
    let n = c as u32;
    ||| 0x09 <= n <= 0x0d
    ||| n == 0x20
    ||| n == 0x85
    ||| n == 0xa0
    ||| n == 0x1680
    ||| 0x2000 <= n <= 0x200a
    ||| n == 0x2028
    ||| n == 0x2029
    ||| n == 0x202f
    ||| n == 0x205f
    ||| n == 0x3000
}

/// Whether `c` is white space.
pub fn is_white_space(c: char) -> (r: bool)
    ensures
        r == is_space(c),
{
    let n: u32 = c as u32;
    (0x09 <= n && n <= 0x0d) || n == 0x20 || n == 0x85 || n == 0xa0 || n == 0x1680 || (0x2000 <= n
        && n <= 0x200a) || n == 0x2028 || n == 0x2029 || n == 0x202f || n == 0x205f || n == 0x3000
}

/// Whether a text holds nothing but white space.
pub open spec fn is_blank(s: Seq<char>) -> bool {
    forall|i: int| 0 <= i < s.len() ==> is_space(#[trigger] s[i])
}

/// `s` without the white space that it starts with.
pub open spec fn trim_start(s: Seq<char>) -> Seq<char>
    decreases s.len(),
{
    if s.len() > 0 && is_space(s[0]) {
        trim_start(s.subrange(1, s.len() as int))
    } else {
        s
    }
}

/// `s` without the white space that it ends with.
pub open spec fn trim_end(s: Seq<char>) -> Seq<char>
    decreases s.len(),
{
    if s.len() > 0 && is_space(s.last()) {
        trim_end(s.drop_last())
    } else {
        s
    }
}

/// `s` without the white space around it.
pub open spec fn trimmed(s: Seq<char>) -> Seq<char> {
    trim_end(trim_start(s))
}

/// A text that may be missing, as the contracts speak of it.
pub open spec fn text_view(s: Option<&str>) -> Option<Seq<char>> {
    match s {
        Some(t) => Some(t@),
        None => None,
    }
}

/// A string that may be missing, as the contracts speak of it.
pub open spec fn string_view(s: Option<String>) -> Option<Seq<char>> {
    match s {
        Some(t) => Some(t@),
        None => None,
    }
}

/// The characters of a string.
pub fn chars_of(s: &str) -> (r: Vec<char>)
    ensures
        r@ == s@,
{
    let mut r: Vec<char> = Vec::new();
    for c in it: s.chars()
        invariant
            r@ == it.seq().take(it.index()),
            it.seq() == s@,
    {
        r.push(c);
    }
    r
}

/// The characters from `from` up to `to`, as a string.
pub fn string_of(chars: &[char], from: usize, to: usize) -> (r: String)
    requires
        from <= to <= chars@.len(),
    ensures
        r@ == chars@.subrange(from as int, to as int),
{
    let mut r = String::new();
    let mut i: usize = from;
    while i < to
        invariant
            from <= i <= to <= chars@.len(),
            r@ == chars@.subrange(from as int, i as int),
        decreases to - i,
    {
        r.push(chars[i]);
        i += 1;
        assert(chars@.subrange(from as int, i as int) == chars@.subrange(
            from as int,
            i as int - 1,
        ).push(chars@[i as int - 1]));
    }
    r
}

/// `s` without the white space around it.
pub fn trim(s: &[char]) -> (r: String)
    ensures
        r@ == trimmed(s@),
{
    let mut from: usize = 0;
    assert(s@.subrange(0, s@.len() as int) == s@);
    while from < s.len() && is_white_space(s[from])
        invariant
            from <= s@.len(),
            trim_start(s@) == trim_start(s@.subrange(from as int, s@.len() as int)),
        decreases s@.len() - from,
    {
        let ghost rest = s@.subrange(from as int, s@.len() as int);
        assert(rest.subrange(1, rest.len() as int) == s@.subrange(from + 1, s@.len() as int));
        from += 1;
    }
    let ghost start = s@.subrange(from as int, s@.len() as int);
    assert(trim_start(s@) == start);
    let mut to: usize = s.len();
    while to > from && is_white_space(s[to - 1])
        invariant
            from <= to <= s@.len(),
            trim_end(start) == trim_end(s@.subrange(from as int, to as int)),
        decreases to,
    {
        let ghost rest = s@.subrange(from as int, to as int);
        assert(rest.drop_last() == s@.subrange(from as int, to - 1));
        to -= 1;
    }
    assert(s@.subrange(from as int, to as int).len() > 0 ==> s@.subrange(
        from as int,
        to as int,
    ).last() == s@[to - 1]);
    string_of(s, from, to)
}

/// `s` without the white space that it ends with.
pub fn trim_tail(s: &[char]) -> (r: String)
    ensures
        r@ == trim_end(s@),
{
    let mut to: usize = s.len();
    assert(s@.take(to as int) =~= s@);
    while to > 0 && is_white_space(s[to - 1])
        invariant
            to <= s@.len(),
            trim_end(s@) == trim_end(s@.take(to as int)),
        decreases to,
    {
        assert(s@.take(to as int).drop_last() =~= s@.take(to - 1));
        to -= 1;
    }
    assert(s@.subrange(0, to as int) =~= s@.take(to as int));
    string_of(s, 0, to)
}

/// Whether a text starts with another.
pub open spec fn starts_with(s: Seq<char>, prefix: Seq<char>) -> bool {
    s.len() >= prefix.len() && s.take(prefix.len() as int) == prefix
}

/// What follows `prefix` in a text that starts with it.
pub fn strip_prefix(s: &str, prefix: &str) -> (r: Option<String>)
    ensures
        match r {
            Some(rest) => starts_with(s@, prefix@) && rest@ == s@.skip(prefix@.len() as int),
            None => !starts_with(s@, prefix@),
        },
{
    let chars = chars_of(s);
    let start = chars_of(prefix);
    if chars.len() < start.len() {
        return None;
    }
    let mut i: usize = 0;
    while i < start.len()
        invariant
            i <= start@.len() <= chars@.len(),
            chars@ == s@,
            start@ == prefix@,
            forall|j: int| 0 <= j < i ==> chars@[j] == start@[j],
        decreases start@.len() - i,
    {
        if chars[i] != start[i] {
            assert(s@.take(prefix@.len() as int)[i as int] != prefix@[i as int]);
            return None;
        }
        i += 1;
    }
    assert(s@.take(prefix@.len() as int) =~= prefix@);
    assert(chars@.subrange(start@.len() as int, chars@.len() as int) =~= s@.skip(
        prefix@.len() as int,
    ));
    Some(string_of(chars.as_slice(), start.len(), chars.len()))
}

/// The place of the first line feed in `s`, or its length where it has none.
pub open spec fn line_end(s: Seq<char>) -> int
    decreases s.len(),
{
    if s.len() == 0 || s[0] == '\n' {
        0
    } else {
        1 + line_end(s.subrange(1, s.len() as int))
    }
}

/// A line that a line feed ended, without the carriage return before it.
pub open spec fn strip_return(line: Seq<char>) -> Seq<char> {
    if line.len() > 0 && line.last() == '\r' {
        line.drop_last()
    } else {
        line
    }
}

/// The lines of a text. A line feed, with or without a carriage return before
/// it, ends a line; the last line needs none.
pub open spec fn lines_of(s: Seq<char>) -> Seq<Seq<char>>
    decreases s.len(),
{
    proof {
        lemma_line_end(s);
    }
    if s.len() == 0 {
        Seq::empty()
    } else if line_end(s) == s.len() {
        seq![s]
    } else {
        seq![strip_return(s.subrange(0, line_end(s)))] + lines_of(
            s.subrange(line_end(s) + 1, s.len() as int),
        )
    }
}

/// What `line_end` is: no line feed stands before it, and one stands there
/// unless it is the end.
pub proof fn lemma_line_end(s: Seq<char>)
    ensures
        0 <= line_end(s) <= s.len(),
        forall|j: int| 0 <= j < line_end(s) ==> s[j] != '\n',
        line_end(s) < s.len() ==> s[line_end(s)] == '\n',
    decreases s.len(),
{
    if s.len() > 0 && s[0] != '\n' {
        let rest = s.subrange(1, s.len() as int);
        lemma_line_end(rest);
        assert forall|j: int| 0 <= j < line_end(s) implies s[j] != '\n' by {
            if j > 0 {
                assert(s[j] == rest[j - 1]);
            }
        }
    }
}

/// A line that a line feed ends comes first, before the lines of the rest.
pub proof fn lemma_first_line(line: Seq<char>, rest: Seq<char>)
    requires
        forall|i: int| 0 <= i < line.len() ==> #[trigger] line[i] != '\n',
        line.len() > 0 ==> line.last() != '\r',
    ensures
        lines_of(line.push('\n') + rest) == seq![line] + lines_of(rest),
{
    let s = line.push('\n') + rest;
    lemma_line_end(s);
    let n = line.len() as int;
    assert(s[n] == '\n');
    if line_end(s) < n {
        assert(s[line_end(s)] == line[line_end(s)]);
    }
    assert(line_end(s) == n);
    assert(s.subrange(0, n) =~= line);
    assert(s.subrange(n + 1, s.len() as int) =~= rest);
}

/// The texts that a list of strings holds.
pub open spec fn texts(v: Seq<String>) -> Seq<Seq<char>> {
    Seq::new(v.len(), |i: int| v[i]@)
}

/// The lines of a text.
pub fn lines(s: &str) -> (r: Vec<String>)
    ensures
        texts(r@) == lines_of(s@),
{
    let chars = chars_of(s);
    let n: usize = chars.len();
    let mut r: Vec<String> = Vec::new();
    let mut from: usize = 0;
    assert(chars@.subrange(0, n as int) == chars@);
    assert(texts(r@) == Seq::<Seq<char>>::empty());
    while from < n
        invariant
            from <= n == chars@.len(),
            chars@ == s@,
            texts(r@) + lines_of(chars@.subrange(from as int, n as int)) == lines_of(s@),
        decreases n - from,
    {
        let ghost rest = chars@.subrange(from as int, n as int);
        proof {
            lemma_line_end(rest);
        }
        let mut to: usize = from;
        while to < n && chars[to] != '\n'
            invariant
                from <= to <= n == chars@.len(),
                rest == chars@.subrange(from as int, n as int),
                forall|j: int| from <= j < to ==> chars@[j] != '\n',
            decreases n - to,
        {
            to += 1;
        }
        proof {
            if line_end(rest) < to - from {
                assert(rest[line_end(rest)] == chars@[from + line_end(rest)]);
            } else if line_end(rest) > to - from {
                assert(rest[to - from] == chars@[to as int]);
            }
        }
        let ghost before = r@;
        if to == n {
            r.push(string_of(chars.as_slice(), from, to));
            from = n;
            assert(lines_of(chars@.subrange(n as int, n as int)) == Seq::<Seq<char>>::empty());
            assert(texts(r@) =~= texts(before).push(rest));
        } else {
            let end: usize = if to > from && chars[to - 1] == '\r' {
                to - 1
            } else {
                to
            };
            r.push(string_of(chars.as_slice(), from, end));
            proof {
                let line = rest.subrange(0, line_end(rest));
                assert(line == chars@.subrange(from as int, to as int));
                assert(strip_return(line) =~= chars@.subrange(from as int, end as int));
                assert(rest.subrange(line_end(rest) + 1, rest.len() as int) =~= chars@.subrange(
                    to + 1,
                    n as int,
                ));
                assert(texts(r@) =~= texts(before).push(strip_return(line)));
                assert(texts(before).push(strip_return(line)) + lines_of(
                    chars@.subrange(to + 1, n as int),
                ) =~= texts(before) + lines_of(rest));
            }
            from = to + 1;
        }
    }
    proof {
        assert(from == n);
        assert(texts(r@) + Seq::<Seq<char>>::empty() =~= texts(r@));
    }
    r
}

/// Where the first white space in `s` is, or its length where it has none.
pub open spec fn word_end(s: Seq<char>) -> int
    decreases s.len(),
{
    if s.len() == 0 || is_space(s[0]) {
        0
    } else {
        1 + word_end(s.subrange(1, s.len() as int))
    }
}

/// What `word_end` is: no white space stands before it, and some stands there
/// unless it is the end.
pub proof fn lemma_word_end(s: Seq<char>)
    ensures
        0 <= word_end(s) <= s.len(),
        forall|j: int| 0 <= j < word_end(s) ==> !is_space(#[trigger] s[j]),
        word_end(s) < s.len() ==> is_space(s[word_end(s)]),
    decreases s.len(),
{
    if s.len() > 0 && !is_space(s[0]) {
        let rest = s.subrange(1, s.len() as int);
        lemma_word_end(rest);
        assert forall|j: int| 0 <= j < word_end(s) implies !is_space(#[trigger] s[j]) by {
            if j > 0 {
                assert(s[j] == rest[j - 1]);
            }
        }
    }
}

/// The words of a text: what stands between its white space.
pub open spec fn words(s: Seq<char>) -> Seq<Seq<char>>
    decreases s.len(),
{
    proof {
        lemma_word_end(s);
    }
    if s.len() == 0 {
        Seq::empty()
    } else if is_space(s[0]) {
        words(s.subrange(1, s.len() as int))
    } else {
        seq![s.subrange(0, word_end(s))] + words(s.subrange(word_end(s), s.len() as int))
    }
}

/// The `n`-th word of a text, counted from zero, if it has so many.
pub fn nth_word(s: &str, n: usize) -> (r: Option<String>)
    ensures
        match r {
            Some(word) => n < words(s@).len() && word@ == words(s@)[n as int],
            None => words(s@).len() <= n,
        },
{
    let chars = chars_of(s);
    let len: usize = chars.len();
    let mut from: usize = 0;
    let mut skipped: usize = 0;
    assert(chars@.subrange(0, len as int) =~= chars@);
    assert(words(s@).skip(0) =~= words(s@));
    while from < len
        invariant
            from <= len == chars@.len(),
            chars@ == s@,
            skipped <= n,
            skipped <= words(s@).len(),
            words(s@).skip(skipped as int) == words(chars@.subrange(from as int, len as int)),
        decreases len - from,
    {
        let ghost rest = chars@.subrange(from as int, len as int);
        assert(rest[0] == chars@[from as int]);
        if is_white_space(chars[from]) {
            assert(rest.subrange(1, rest.len() as int) =~= chars@.subrange(from + 1, len as int));
            from += 1;
        } else {
            let mut to: usize = from;
            while to < len && !is_white_space(chars[to])
                invariant
                    from <= to <= len == chars@.len(),
                    forall|j: int| from <= j < to ==> !is_space(#[trigger] chars@[j]),
                decreases len - to,
            {
                to += 1;
            }
            proof {
                lemma_word_end(rest);
                if word_end(rest) < to - from {
                    assert(rest[word_end(rest)] == chars@[from + word_end(rest)]);
                } else if word_end(rest) > to - from {
                    assert(rest[to - from] == chars@[to as int]);
                }
                assert(rest.subrange(0, word_end(rest)) =~= chars@.subrange(
                    from as int,
                    to as int,
                ));
                assert(rest.subrange(word_end(rest), rest.len() as int) =~= chars@.subrange(
                    to as int,
                    len as int,
                ));
                assert(words(rest) == seq![rest.subrange(0, word_end(rest))] + words(
                    rest.subrange(word_end(rest), rest.len() as int),
                ));
                assert(words(rest).len() > 0);
                assert(words(s@).skip(skipped as int)[0] == words(s@)[skipped as int]);
                assert(words(rest).skip(1) =~= words(chars@.subrange(to as int, len as int)));
                assert(words(s@).skip(skipped as int).skip(1) =~= words(s@).skip(skipped + 1));
            }
            if skipped == n {
                return Some(string_of(chars.as_slice(), from, to));
            }
            skipped += 1;
            from = to;
        }
    }
    assert(words(chars@.subrange(len as int, len as int)) =~= Seq::<Seq<char>>::empty());
    assert(words(s@).skip(skipped as int).len() == 0);
    None
}

/// The decimal digit of a number below ten.
pub open spec fn digit(d: nat) -> char {
    (48 + d) as char
}

/// A number in decimal, without leading zeros.
pub open spec fn decimal(n: nat) -> Seq<char>
    decreases n,
{
    if n < 10 {
        seq![digit(n)]
    } else {
        decimal(n / 10).push(digit(n % 10))
    }
}

/// Appends `n` in decimal.
pub fn push_decimal(s: &mut String, n: u64)
    ensures
        final(s)@ == old(s)@ + decimal(n as nat),
    decreases n,
{
    if n >= 10 {
        push_decimal(s, n / 10);
    }
    let d: u8 = 48 + (n % 10) as u8;
    s.push(d as char);
    assert(s@ =~= old(s)@ + decimal(n as nat));
}

/// Whether a text is a decimal number.
pub open spec fn is_number(s: Seq<char>) -> bool {
    s.len() > 0 && forall|i: int| 0 <= i < s.len() ==> '0' <= #[trigger] s[i] && s[i] <= '9'
}

/// The number that decimal digits spell.
pub open spec fn number(s: Seq<char>) -> nat
    decreases s.len(),
{
    if s.len() == 0 {
        0
    } else {
        10 * number(s.drop_last()) + (s.last() as nat - 48) as nat
    }
}

/// The number that a text spells in decimal, where it is one and fits.
pub fn parse_number(s: &str) -> (r: Option<u64>)
    ensures
        match r {
            Some(n) => is_number(s@) && number(s@) == n,
            None => !is_number(s@) || number(s@) > u64::MAX,
        },
{
    let chars = chars_of(s);
    let ghost all = chars@;
    if chars.len() == 0 {
        return None;
    }
    let mut n: u64 = 0;
    let mut fits: bool = true;
    let mut i: usize = 0;
    while i < chars.len()
        invariant
            i <= chars@.len(),
            all == chars@,
            all == s@,
            fits ==> number(all.take(i as int)) == n,
            !fits ==> number(all.take(i as int)) > u64::MAX,
            forall|j: int| 0 <= j < i ==> '0' <= #[trigger] all[j] && all[j] <= '9',
        decreases chars@.len() - i,
    {
        let c: char = chars[i];
        if c < '0' || c > '9' {
            assert(!('0' <= all[i as int] && all[i as int] <= '9'));
            return None;
        }
        assert(all.take(i + 1).drop_last() =~= all.take(i as int));
        let d: u64 = c as u64 - 48;
        if fits {
            if n > (u64::MAX - d) / 10 {
                fits = false;
            } else {
                n = 10 * n + d;
            }
        }
        i += 1;
    }
    assert(all.take(all.len() as int) =~= all);
    if fits {
        Some(n)
    } else {
        None
    }
}

/// A number is read back from its decimal.
pub proof fn law_decimal_is_read_back(n: nat)
    ensures
        is_number(decimal(n)),
        number(decimal(n)) == n,
    decreases n,
{
    if n >= 10 {
        law_decimal_is_read_back(n / 10);
        let rest = decimal(n / 10);
        assert(decimal(n).drop_last() =~= rest);
        assert(decimal(n).last() == digit(n % 10));
        assert forall|i: int| 0 <= i < decimal(n).len() implies '0' <= #[trigger] decimal(n)[i]
            && decimal(n)[i] <= '9' by {
            if i < rest.len() {
                assert(decimal(n)[i] == rest[i]);
            }
        }
    } else {
        assert(decimal(n).drop_last() =~= Seq::<char>::empty());
        assert(decimal(n).last() == digit(n));
        assert(number(decimal(n).drop_last()) == 0);
    }
}

/// Whether two texts hold the same characters.
pub fn same_text(a: &str, b: &str) -> (r: bool)
    ensures
        r == (a@ == b@),
{
    let x = chars_of(a);
    let y = chars_of(b);
    if x.len() != y.len() {
        return false;
    }
    let mut i: usize = 0;
    while i < x.len()
        invariant
            i <= x@.len(),
            x@ == a@,
            y@ == b@,
            x@.len() == y@.len(),
            forall|j: int| 0 <= j < i ==> x@[j] == y@[j],
        decreases x@.len() - i,
    {
        if x[i] != y[i] {
            return false;
        }
        i += 1;
    }
    assert(x@ =~= y@);
    true
}

proof fn lemma_trim_start(a: Seq<char>, x: Seq<char>)
    requires
        forall|i: int| 0 <= i < a.len() ==> is_space(#[trigger] a[i]),
        x.len() > 0 ==> !is_space(x[0]),
    ensures
        trim_start(a + x) == x,
    decreases a.len(),
{
    if a.len() == 0 {
        assert(a + x =~= x);
    } else {
        assert((a + x)[0] == a[0]);
        let rest = a.subrange(1, a.len() as int);
        lemma_trim_start(rest, x);
        assert((a + x).subrange(1, (a + x).len() as int) =~= rest + x);
    }
}

proof fn lemma_trim_end(x: Seq<char>, b: Seq<char>)
    requires
        forall|i: int| 0 <= i < b.len() ==> is_space(#[trigger] b[i]),
        x.len() > 0 ==> !is_space(x.last()),
    ensures
        trim_end(x + b) == x,
    decreases b.len(),
{
    if b.len() == 0 {
        assert(x + b =~= x);
    } else {
        assert((x + b).last() == b.last());
        lemma_trim_end(x, b.drop_last());
        assert((x + b).drop_last() =~= x + b.drop_last());
    }
}

/// Trimming takes away the white space around a text, all of it, and nothing
/// else: a text `t` that neither starts nor ends with white space is what is left
/// of it whatever white space is put before and after it. Trimming the end takes
/// away what is after it, and leaves what is before.
pub proof fn law_trimming_takes_the_white_space_around(
    before: Seq<char>,
    t: Seq<char>,
    after: Seq<char>,
)
    requires
        forall|i: int| 0 <= i < before.len() ==> is_space(#[trigger] before[i]),
        forall|i: int| 0 <= i < after.len() ==> is_space(#[trigger] after[i]),
        t.len() > 0 ==> !is_space(t[0]) && !is_space(t.last()),
    ensures
        trimmed(before + t + after) == t,
        trimmed(before) == Seq::<char>::empty(),
        trim_end(before + t + after) == if t.len() > 0 {
            before + t
        } else {
            Seq::empty()
        },
{
    let none: Seq<char> = Seq::empty();
    if t.len() > 0 {
        assert(before + t + after =~= before + (t + after));
        lemma_trim_start(before, t + after);
        lemma_trim_end(t, after);
        assert((before + t).last() == t.last());
        lemma_trim_end(before + t, after);
    } else {
        let all = before + t + after;
        assert forall|i: int| 0 <= i < all.len() implies is_space(#[trigger] all[i]) by {
            if i < before.len() {
                assert(all[i] == before[i]);
            } else {
                assert(all[i] == after[i - before.len()]);
            }
        }
        assert(all + none =~= all);
        assert(none + all =~= all);
        lemma_trim_start(all, none);
        lemma_trim_end(none, all);
        assert(t =~= none);
    }
    assert(before + none =~= before);
    lemma_trim_start(before, none);
}

/// A text is blank just where nothing is left of it once it is trimmed: one
/// character that is no white space, anywhere, is enough.
pub proof fn law_blank_text_holds_white_space_only(a: Seq<char>, c: char, b: Seq<char>)
    ensures
        is_blank(a.push(c) + b) <==> is_blank(a) && is_space(c) && is_blank(b),
        is_blank(Seq::<char>::empty()),
        is_blank(a) <==> trimmed(a) == Seq::<char>::empty(),
{
    let s = a.push(c) + b;
    if is_blank(a) && is_space(c) && is_blank(b) {
        assert forall|i: int| 0 <= i < s.len() implies is_space(#[trigger] s[i]) by {
            if i < a.len() {
                assert(s[i] == a[i]);
            } else if i > a.len() {
                assert(s[i] == b[i - a.len() - 1]);
            }
        }
    }
    if is_blank(s) {
        assert forall|i: int| 0 <= i < a.len() implies is_space(#[trigger] a[i]) by {
            assert(s[i] == a[i]);
        }
        assert forall|i: int| 0 <= i < b.len() implies is_space(#[trigger] b[i]) by {
            assert(s[a.len() + 1 + i] == b[i]);
        }
        assert(s[a.len() as int] == c);
    }
    if is_blank(a) {
        law_trimming_takes_the_white_space_around(a, Seq::empty(), Seq::empty());
    } else {
        let at = choose|i: int| 0 <= i < a.len() && !is_space(#[trigger] a[i]);
        lemma_trim_start_keeps(a, at);
        let x = trim_start(a);
        let there = choose|i: int| 0 <= i < x.len() && !is_space(#[trigger] x[i]);
        lemma_trim_end_keeps(x, there);
    }
}

proof fn lemma_trim_start_keeps(s: Seq<char>, at: int)
    requires
        0 <= at < s.len(),
        !is_space(s[at]),
    ensures
        exists|i: int| 0 <= i < trim_start(s).len() && !is_space(#[trigger] trim_start(s)[i]),
    decreases s.len(),
{
    if is_space(s[0]) {
        let rest = s.subrange(1, s.len() as int);
        assert(rest[at - 1] == s[at]);
        lemma_trim_start_keeps(rest, at - 1);
        let i = choose|i: int|
            0 <= i < trim_start(rest).len() && !is_space(#[trigger] trim_start(rest)[i]);
        assert(!is_space(trim_start(s)[i]));
    } else {
        assert(!is_space(trim_start(s)[at]));
    }
}

proof fn lemma_trim_end_keeps(s: Seq<char>, at: int)
    requires
        0 <= at < s.len(),
        !is_space(s[at]),
    ensures
        trim_end(s).len() > 0,
    decreases s.len(),
{
    if is_space(s.last()) {
        assert(s.drop_last()[at] == s[at]);
        lemma_trim_end_keeps(s.drop_last(), at);
    }
}

/// A text starts with another just where that one followed by something is the
/// text, and what follows is what is left when it is taken away.
pub proof fn law_text_starts_with_what_it_continues(
    s: Seq<char>,
    prefix: Seq<char>,
    rest: Seq<char>,
)
    ensures
        starts_with(prefix + rest, prefix),
        (prefix + rest).skip(prefix.len() as int) == rest,
        starts_with(s, prefix) ==> prefix + s.skip(prefix.len() as int) == s,
{
    assert((prefix + rest).take(prefix.len() as int) =~= prefix);
    assert((prefix + rest).skip(prefix.len() as int) =~= rest);
    if starts_with(s, prefix) {
        assert(s =~= s.take(prefix.len() as int) + s.skip(prefix.len() as int));
    }
}

/// Line feeds part a text into lines, and a carriage return before one goes with
/// it. What is left after the last line feed is a line unless it is empty.
pub proof fn law_line_feeds_end_lines(line: Seq<char>, rest: Seq<char>)
    requires
        forall|i: int| 0 <= i < line.len() ==> #[trigger] line[i] != '\n',
    ensures
        lines_of(line.push('\n') + rest) == seq![
            if line.len() > 0 && line.last() == '\r' {
                line.drop_last()
            } else {
                line
            },
        ] + lines_of(rest),
        lines_of(line) == if line.len() > 0 {
            seq![line]
        } else {
            Seq::empty()
        },
{
    let s = line.push('\n') + rest;
    lemma_line_end(s);
    lemma_line_end(line);
    let n = line.len() as int;
    assert(s[n] == '\n');
    if line_end(s) < n {
        assert(s[line_end(s)] == line[line_end(s)]);
    }
    assert(s.subrange(0, n) =~= line);
    assert(s.subrange(n + 1, s.len() as int) =~= rest);
}

proof fn lemma_words_after_space(space: Seq<char>, x: Seq<char>)
    requires
        forall|i: int| 0 <= i < space.len() ==> is_space(#[trigger] space[i]),
    ensures
        words(space + x) == words(x),
    decreases space.len(),
{
    if space.len() == 0 {
        assert(space + x =~= x);
    } else {
        let rest = space.subrange(1, space.len() as int);
        assert((space + x)[0] == space[0]);
        lemma_words_after_space(rest, x);
        assert((space + x).subrange(1, (space + x).len() as int) =~= rest + x);
    }
}

/// White space parts a text into words, however much of it there is: the first
/// word is what stands before the next white space, whatever comes after, and
/// white space alone holds none.
pub proof fn law_white_space_parts_words(space: Seq<char>, word: Seq<char>, rest: Seq<char>)
    requires
        forall|i: int| 0 <= i < space.len() ==> is_space(#[trigger] space[i]),
        forall|i: int| 0 <= i < word.len() ==> !is_space(#[trigger] word[i]),
        word.len() > 0,
        rest.len() > 0 ==> is_space(rest[0]),
    ensures
        words(space + word + rest) == seq![word] + words(rest),
        words(space) == Seq::<Seq<char>>::empty(),
{
    let none: Seq<char> = Seq::empty();
    assert(space + none =~= space);
    lemma_words_after_space(space, none);
    assert(space + word + rest =~= space + (word + rest));
    lemma_words_after_space(space, word + rest);
    let s = word + rest;
    let n = word.len() as int;
    lemma_word_end(s);
    assert(s[0] == word[0]);
    if word_end(s) < n {
        assert(s[word_end(s)] == word[word_end(s)]);
    } else if word_end(s) > n {
        assert(s[n] == rest[0]);
    }
    assert(s.subrange(0, n) =~= word);
    assert(s.subrange(n, s.len() as int) =~= rest);
}

/// Numbers are written in base ten: one more digit behind a number makes it ten
/// times as large plus the digit, each character from `0` to `9` is a digit and no
/// other is, and a number is written without a zero in front.
pub proof fn law_numbers_are_decimal(s: Seq<char>, c: char, n: nat)
    ensures
        number(Seq::<char>::empty()) == 0,
        '0' <= c <= '9' ==> number(s.push(c)) == 10 * number(s) + (c as nat - '0' as nat),
        is_number(s.push(c)) <==> '0' <= c <= '9' && (s.len() == 0 || is_number(s)),
        !is_number(Seq::<char>::empty()),
        n >= 10 ==> decimal(n)[0] != '0',
        n < 10 ==> decimal(n).len() == 1,
        number(decimal(n)) == n,
        is_number(decimal(n)),
{
    assert(s.push(c).drop_last() =~= s);
    law_decimal_is_read_back(n);
    if n >= 10 {
        lemma_decimal_has_no_zero_in_front(n);
    }
    let t = s.push(c);
    if is_number(t) {
        assert(t[s.len() as int] == c);
        if s.len() > 0 {
            assert forall|i: int| 0 <= i < s.len() implies '0' <= #[trigger] s[i] && s[i] <= '9' by {
                assert(t[i] == s[i]);
            }
        }
    }
}

proof fn lemma_decimal_has_no_zero_in_front(n: nat)
    requires
        n > 0,
    ensures
        decimal(n).len() > 0,
        decimal(n)[0] != '0',
    decreases n,
{
    if n >= 10 {
        lemma_decimal_has_no_zero_in_front(n / 10);
        assert(decimal(n)[0] == decimal(n / 10)[0]);
    }
}

/// What a list of strings, or a string that may be missing, says is what the
/// strings hold, one for one.
pub proof fn law_strings_say_what_they_hold(
    v: Seq<String>,
    i: int,
    t: &str,
    s: Option<&str>,
    o: Option<String>,
)
    ensures
        texts(v).len() == v.len(),
        0 <= i < v.len() ==> texts(v)[i] == v[i]@,
        text_view(Some(t)) == Some(t@),
        text_view(s) is Some <==> s is Some,
        string_view(o) is Some <==> o is Some,
        o is Some ==> string_view(o) == Some(o->0@),
{
}

proof fn lemma_words_before_space(s: Seq<char>, space: Seq<char>)
    requires
        forall|i: int| 0 <= i < space.len() ==> is_space(#[trigger] space[i]),
    ensures
        words(s + space) == words(s),
    decreases s.len(),
{
    let none: Seq<char> = Seq::empty();
    let all = s + space;
    if s.len() == 0 {
        assert(all =~= space + none);
        assert(s =~= none);
        lemma_words_after_space(space, none);
    } else if is_space(s[0]) {
        let rest = s.subrange(1, s.len() as int);
        assert(all[0] == s[0]);
        lemma_words_before_space(rest, space);
        assert(all.subrange(1, all.len() as int) =~= rest + space);
    } else {
        lemma_word_end(s);
        lemma_word_end(all);
        let e = word_end(s);
        assert(all[0] == s[0]);
        if word_end(all) < e {
            assert(all[word_end(all)] == s[word_end(all)]);
        } else if word_end(all) > e {
            if e < s.len() {
                assert(all[e] == s[e]);
            } else {
                assert(all[e] == space[0]);
            }
        }
        assert(all.subrange(0, e) =~= s.subrange(0, e));
        let rest = s.subrange(e, s.len() as int);
        assert(all.subrange(e, all.len() as int) =~= rest + space);
        lemma_words_before_space(rest, space);
    }
}

/// White space behind a text adds no word and changes none.
pub proof fn law_white_space_behind_adds_no_word(s: Seq<char>, space: Seq<char>)
    requires
        forall|i: int| 0 <= i < space.len() ==> is_space(#[trigger] space[i]),
    ensures
        words(s + space) == words(s),
{
    lemma_words_before_space(s, space);
}

/// The lines of two texts with a line feed between them are those of the one and
/// then those of the other.
pub proof fn law_lines_follow_each_other(before: Seq<char>, rest: Seq<char>)
    ensures
        lines_of(before.push('\n') + rest) == lines_of(before.push('\n')) + lines_of(rest),
    decreases before.len(),
{
    let none: Seq<char> = Seq::empty();
    lemma_line_end(before);
    let e = line_end(before);
    let line = before.subrange(0, e);
    assert forall|i: int| 0 <= i < line.len() implies #[trigger] line[i] != '\n' by {
        assert(line[i] == before[i]);
    }
    if e < before.len() {
        let after = before.subrange(e + 1, before.len() as int);
        law_lines_follow_each_other(after, rest);
        law_line_feeds_end_lines(line, after.push('\n') + rest);
        law_line_feeds_end_lines(line, after.push('\n'));
        assert(before.push('\n') + rest =~= line.push('\n') + (after.push('\n') + rest));
        assert(before.push('\n') =~= line.push('\n') + after.push('\n'));
        assert(lines_of(before.push('\n') + rest) =~= lines_of(before.push('\n')) + lines_of(rest));
    } else {
        assert(line =~= before);
        law_line_feeds_end_lines(line, rest);
        law_line_feeds_end_lines(line, none);
        assert(line.push('\n') + none =~= line.push('\n'));
        assert(lines_of(before.push('\n') + rest) =~= lines_of(before.push('\n')) + lines_of(rest));
    }
}

/// White space is what Unicode says it is: the five controls from the tabulator to
/// the carriage return, the space, the next line, the space that does not break, and
/// seventeen more.
pub proof fn law_white_space_characters(c: char)
    ensures
        is_space(c) <==> seq![
            0x09int, 0x0a, 0x0b, 0x0c, 0x0d, 0x20, 0x85, 0xa0, 0x1680, 0x2000, 0x2001, 0x2002,
            0x2003, 0x2004, 0x2005, 0x2006, 0x2007, 0x2008, 0x2009, 0x200a, 0x2028, 0x2029, 0x202f,
            0x205f, 0x3000,
        ].contains(c as int),
{
    let all = seq![
        0x09int, 0x0a, 0x0b, 0x0c, 0x0d, 0x20, 0x85, 0xa0, 0x1680, 0x2000, 0x2001, 0x2002,
        0x2003, 0x2004, 0x2005, 0x2006, 0x2007, 0x2008, 0x2009, 0x200a, 0x2028, 0x2029, 0x202f,
        0x205f, 0x3000,
    ];
    let n = c as int;
    if is_space(c) {
        let at = if n <= 0x0d {
            n - 9
        } else if n == 0x20 {
            5
        } else if n == 0x85 {
            6
        } else if n == 0xa0 {
            7
        } else if n == 0x1680 {
            8
        } else if n <= 0x200a {
            n - 0x2000 + 9
        } else if n == 0x2028 {
            20
        } else if n == 0x2029 {
            21
        } else if n == 0x202f {
            22
        } else if n == 0x205f {
            23
        } else {
            24
        };
        assert(all[at] == n);
    }
}

} // verus!
