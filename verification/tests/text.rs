use aicg::order::sort;
use aicg::text::{
    is_white_space, join_lines, push_decimal, push_repeated, same, split_lines, strip_prefix,
    strip_suffix, trim,
};

#[test]
fn lines_as_the_standard_library_splits_them() {
    for t in [
        "", "\n", "a", "a\n", "a\n\n", "\na", "a\nb", "a\r\nb\r\n", "a\rb", "a\r", "\r\n", "\r",
        "a\r\r\nb", "é\nü\n…",
    ] {
        let expected: Vec<&str> = t.lines().collect();
        assert_eq!(split_lines(t), expected, "{t:?}");
    }
}

#[test]
fn trims_as_the_standard_library_does() {
    for t in ["", " ", "a", " a ", "\t a b\n", "\u{a0}x\u{3000}", "\u{200b}x\u{200b}", "\u{85}\u{1680}"] {
        assert_eq!(trim(t), t.trim(), "{t:?}");
        assert_eq!(trim(&trim(t)), trim(t));
    }
    for n in 0..=0x10ffffu32 {
        if let Some(c) = char::from_u32(n) {
            assert_eq!(is_white_space(c), c.is_whitespace(), "{n:x}");
        }
    }
}

#[test]
fn strips_prefixes_and_suffixes() {
    for (s, p) in [("", ""), ("abc", ""), ("abc", "ab"), ("abc", "bc"), ("ab", "abc"), ("éé", "é")] {
        assert_eq!(strip_prefix(s, p).as_deref(), s.strip_prefix(p));
        assert_eq!(strip_suffix(s, p).as_deref(), s.strip_suffix(p));
        assert_eq!(same(s, p), s == p);
    }
    assert!(same("é", "é"));
}

#[test]
fn writes_numbers() {
    for n in [0, 7, 10, 42, 999, 1000, u64::MAX] {
        let mut s = String::from("n=");
        push_decimal(&mut s, n);
        assert_eq!(s, format!("n={n}"));
    }
    let mut s = String::from("a");
    push_repeated(&mut s, '█', 3);
    push_repeated(&mut s, '░', 0);
    assert_eq!(s, "a███");
}

#[test]
fn joined_lines_read_back() {
    let items: Vec<String> = ["b", "", "c d", "e"].iter().map(|s| s.to_string()).collect();
    let text = join_lines(&items, items.len());
    assert_eq!(text, "b\n\nc d\ne");
    assert_eq!(split_lines(&text), items);
    assert_eq!(join_lines(&items, 2), "b\n");
    assert_eq!(join_lines(&items, 0), "");
}

#[test]
fn sorts_by_bytes() {
    let mut v: Vec<String> =
        ["b", "a/", "a", "Z", "é", "", "a", "a.rs", "\u{ffff}", "\u{10000}"].iter().map(|s| s.to_string()).collect();
    let mut reversed = v.clone();
    reversed.reverse();
    sort(&mut v);
    sort(&mut reversed);
    assert_eq!(v, ["", "Z", "a", "a", "a.rs", "a/", "b", "é", "\u{ffff}", "\u{10000}"]);
    assert_eq!(v, reversed);
}
