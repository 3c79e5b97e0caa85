//! Text: each function against what std makes of the same text.

use steelbx::lists::{merge_into, owned, push_all};
use steelbx::order::{comes_before, insert_ascending};
use steelbx::paths::{expand_tilde, file_name, join_path, single_name};
use steelbx::text::{
    contains, decimal_of, ends_with, has_char, join, parse_unsigned, same, space, split_on,
    split_once, starts_with, strip_prefix, strip_suffix, trim, trim_end, word,
};

const SAMPLES: [&str; 14] = [
    "",
    " ",
    "a",
    "a=b",
    "=",
    "a==b",
    "  padded\t\r\n",
    "\u{a0}wide\u{3000}",
    "one,two,,three",
    "é/ü/🛡",
    "..",
    "a/b/",
    "trailing/",
    "\u{feff}x",
];

#[test]
fn white_space_is_what_std_says() {
    for u in 0u32..0x11_0000 {
        if let Some(c) = char::from_u32(u) {
            assert_eq!(space(c), c.is_whitespace(), "{u:x}");
            assert_eq!(word(c), c.is_ascii_alphanumeric() || c == '_', "{u:x}");
        }
    }
}

#[test]
fn text_functions_agree_with_std() {
    for s in SAMPLES {
        assert_eq!(trim(s), s.trim(), "{s:?}");
        assert_eq!(trim_end(s, '/'), s.trim_end_matches('/'), "{s:?}");
        assert_eq!(split_on(s, ','), s.split(',').collect::<Vec<_>>(), "{s:?}");
        let once = s.split_once('=').map(|(a, b)| (a.to_string(), b.to_string()));
        assert_eq!(split_once(s, '='), once, "{s:?}");
        assert_eq!(has_char(s, 'e'), s.contains('e'), "{s:?}");
        for t in SAMPLES {
            assert_eq!(same(s, t), s == t, "{s:?} {t:?}");
            assert_eq!(contains(s, t), s.contains(t), "{s:?} {t:?}");
            assert_eq!(starts_with(s, t), s.starts_with(t), "{s:?} {t:?}");
            assert_eq!(ends_with(s, t), s.ends_with(t), "{s:?} {t:?}");
            assert_eq!(strip_prefix(s, t), s.strip_prefix(t).map(String::from));
            assert_eq!(strip_suffix(s, t), s.strip_suffix(t).map(String::from));
            assert_eq!(comes_before(s, t), s < t, "{s:?} {t:?}");
        }
    }
    let parts: Vec<String> = SAMPLES.iter().map(|s| s.to_string()).collect();
    assert_eq!(join(&parts, ", "), SAMPLES.join(", "));
    assert_eq!(join(&[], ", "), "");
}

#[test]
fn numbers_are_written_and_read() {
    for n in [0usize, 7, 9, 10, 11, 99, 100, 12_345, usize::MAX] {
        assert_eq!(decimal_of(n), n.to_string());
    }
    for s in ["", "+", "-1", "0", "+5", "007", "5x", "18446744073709551615", "18446744073709551616"] {
        assert_eq!(parse_unsigned(s, u64::MAX), s.parse::<u64>().ok(), "{s:?}");
        assert_eq!(
            parse_unsigned(s, u32::MAX as u64),
            s.parse::<u32>().ok().map(u64::from),
            "{s:?}"
        );
    }
}

#[test]
fn paths_agree_with_std() {
    let all = [
        "", "/", ".", "..", "a", "a/", "a/.", "a/./", "./a", "a/..", "/a", "a/b", "../x", "a//b//",
        "/work/foo", "~", "é/ü",
    ];
    for s in all {
        let p = std::path::Path::new(s);
        let name = p.file_name().map(|f| f.to_str().unwrap().to_string());
        assert_eq!(file_name(s), name, "{s:?}");
        assert_eq!(single_name(s), name.as_deref() == Some(s), "{s:?}");
        for t in all {
            assert_eq!(join_path(s, t), p.join(t).to_str().unwrap(), "{s:?} {t:?}");
        }
    }
}

#[test]
fn a_leading_tilde_is_the_home_directory() {
    assert_eq!(expand_tilde("~", "/home/simon"), "/home/simon");
    assert_eq!(expand_tilde("~/x/y", "/home/simon"), "/home/simon/x/y");
    assert_eq!(expand_tilde("~other/x", "/home/simon"), "~other/x");
    assert_eq!(expand_tilde("/a/~", "/home/simon"), "/a/~");
    assert_eq!(expand_tilde("~/x", ""), "x");
}

#[test]
fn sorted_insertion_keeps_order_and_drops_duplicates() {
    let mut names: Vec<String> = Vec::new();
    for n in ["b", "a", "c", "b", "", "aa", "é", "a"] {
        insert_ascending(&mut names, n.to_string());
    }
    assert_eq!(names, vec!["", "a", "aa", "b", "c", "é"]);
}

#[test]
fn lists_are_put_together() {
    let mut list = owned(&["a", "b"]);
    push_all(&mut list, &owned(&["b", "c"]));
    assert_eq!(list, vec!["a", "b", "b", "c"]);
    let mut set = owned(&["a", "b"]);
    merge_into(&mut set, &owned(&["b", "c", "c", "a", "d"]));
    assert_eq!(set, vec!["a", "b", "c", "d"]);
}
