use std::path::Path;

use attache::digest::{hex_digest, to_hex};
use attache::path::UnixPath;
use attache::path_map::PathMap;
use attache::text;

#[test]
fn white_space_is_that_of_the_standard_library() {
    for n in 0..=0x10ffff_u32 {
        if let Some(c) = char::from_u32(n) {
            assert_eq!(text::is_white_space(c), c.is_whitespace(), "U+{n:04X}");
        }
    }
}

#[test]
fn trimming_is_that_of_the_standard_library() {
    for s in ["", " ", "a", " a ", "\t\u{3000}a b\r\n", "a\u{a0}", "\u{85}x"] {
        let chars = text::chars_of(s);
        assert_eq!(text::trim(&chars), s.trim());
        assert_eq!(text::trim_tail(&chars), s.trim_end());
    }
}

#[test]
fn lines_are_those_of_the_standard_library() {
    for s in ["", "\n", "a", "a\n", "a\nb", "a\r\nb\r", "\r\n\r\n", "a\r", "\n\na\n\n", "a\r\r\nb"] {
        let expected: Vec<&str> = s.lines().collect();
        assert_eq!(text::lines(s), expected, "{s:?}");
    }
}

#[test]
fn words_are_those_of_the_standard_library() {
    for s in ["", " ", "a", " a  b\tc ", "one two three four five six", "\u{2003}x\u{2003}y"] {
        for n in 0..7 {
            assert_eq!(text::nth_word(s, n).as_deref(), s.split_whitespace().nth(n), "{s:?} {n}");
        }
    }
}

#[test]
fn numbers_are_written_and_read_back() {
    for n in [0, 7, 10, 99, 1_700_000_000, u64::MAX] {
        let mut s = String::from("x");
        text::push_decimal(&mut s, n);
        assert_eq!(s, format!("x{n}"));
        assert_eq!(text::parse_number(&s[1..]), Some(n));
    }
    assert_eq!(text::parse_number("+1"), None);
    assert_eq!(text::parse_number("007"), Some(7));
}

#[test]
fn prefixes_are_stripped() {
    assert_eq!(text::strip_prefix("ALLOW x", "ALLOW "), Some("x".to_string()));
    assert_eq!(text::strip_prefix("ALLO", "ALLOW "), None);
    assert_eq!(text::strip_prefix("x", ""), Some("x".to_string()));
    assert!(text::same_text("a\u{e9}", "a\u{e9}"));
    assert!(!text::same_text("a", "ab"));
}

#[test]
fn hexadecimal_has_two_digits_for_each_byte() {
    assert_eq!(to_hex(&[0x00, 0x0f, 0xa5, 0xff]), "000fa5ff");
    assert_eq!(
        hex_digest(b"The quick brown fox jumps over the lazy dog"),
        "d7a8fbb307d7809469ca9abcb0082e4f8d5651e46d3cdb762d02d0bf37c9e592"
    );
}

const PATHS: [&str; 18] = [
    "", "/", "//", ".", "./", "a", "a/", "a/b", "a//b", "a/./b", "./a", "/a", "/./a", "a/..", "..",
    "/a/b/.", "/a/b", "a/.b",
];

#[test]
fn paths_are_equal_as_in_the_standard_library() {
    for a in PATHS {
        for b in PATHS {
            let expected = Path::new(a) == Path::new(b);
            assert_eq!(UnixPath::new(a) == UnixPath::new(b), expected, "{a:?} {b:?}");
            assert_eq!(UnixPath::new(a).same_path(&UnixPath::new(b)), expected, "{a:?} {b:?}");
        }
    }
}

#[test]
fn paths_have_the_last_name_of_the_standard_library() {
    for a in PATHS {
        let expected = Path::new(a).file_name().map(|n| n.as_encoded_bytes().to_vec());
        assert_eq!(UnixPath::new(a).file_name(), expected, "{a:?}");
    }
}

#[test]
fn paths_join_as_in_the_standard_library() {
    for a in PATHS {
        for b in PATHS {
            let expected = Path::new(a).join(b);
            assert_eq!(
                UnixPath::new(a).join(b.as_bytes()).bytes,
                expected.as_os_str().as_encoded_bytes(),
                "{a:?} {b:?}"
            );
        }
    }
}

#[test]
fn paths_are_shown_as_text() {
    assert_eq!(UnixPath::new("/a/\u{e9}").display(), "/a/\u{e9}");
    assert_eq!(UnixPath { bytes: b"/a/\xf0\x28b".to_vec() }.display(), "/a/\u{fffd}(b");
}

#[test]
fn a_map_by_path_holds_one_value_for_each_path() {
    let mut map: PathMap<u64> = PathMap::new();
    assert_eq!(map.get(&UnixPath::new("/a")), None);
    map.insert(UnixPath::new("/a"), 1);
    map.insert(UnixPath::new("/b"), 2);
    map.insert(UnixPath::new("//a/"), 3);
    assert_eq!(map.get(&UnixPath::new("/a")), Some(3));
    assert_eq!(map.get(&UnixPath::new("/b")), Some(2));
    assert_eq!(map.remove(&UnixPath::new("/./a")), Some(3));
    assert_eq!(map.remove(&UnixPath::new("/a")), None);
}

#[test]
fn a_map_by_path_tells_many_paths_apart() {
    let mut map: PathMap<u64> = PathMap::new();
    for n in 0..300 {
        map.insert(UnixPath::new(&format!("/d{}/f{}", n % 7, n)), n);
    }
    // the bytes of these two names mix to one number
    map.insert(UnixPath::new("/Aa"), 1000);
    map.insert(UnixPath::new("/BB"), 1001);
    assert_eq!(UnixPath::new("/Aa").number(), UnixPath::new("/BB").number());
    assert_eq!(map.remove(&UnixPath::new("/Aa")), Some(1000));
    assert_eq!(map.get(&UnixPath::new("/BB")), Some(1001));
    for n in 0..300 {
        assert_eq!(map.get(&UnixPath::new(&format!("/d{}//f{}", n % 7, n))), Some(n));
    }
    // ((97 * 31) + 47) for the name and its slash
    assert_eq!(UnixPath::new("/./a/").number(), 3054);
    assert_eq!(UnixPath::new("/").number(), 0);
}
