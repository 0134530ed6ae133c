use aicg::paths::{
    bytes, copy_all, display, is_absolute, is_within, join_path, relative_to, strip_root,
};
use std::path::Path;

const PATHS: [&str; 30] = [
    "", "/", "//", ".", "..", "./", "/.", "a", "a/", "/a", "/a/", "//a", "/a/b", "/a//b", "/a/./b",
    "/a/../b", "/ab", "/a/b/c", "/a/b//./c/", "/a/b/.", "./a", "a/b", "a/./b", "a/b/", ".a", "/.a",
    "/a/.b", "../a", "/a/b/./.", "/a/...",
];

#[test]
fn containment_goes_by_components() {
    for p in PATHS {
        assert_eq!(is_absolute(p.as_bytes()), Path::new(p).is_absolute(), "{p}");
        for base in PATHS {
            assert_eq!(
                is_within(p.as_bytes(), base.as_bytes()),
                Path::new(p).starts_with(base),
                "{p} in {base}"
            );
        }
    }
    assert!(!is_within(b"/work/aicg-other", b"/work/aicg"));
}

#[test]
fn joins_as_the_standard_library_does() {
    for base in PATHS {
        for p in PATHS {
            assert_eq!(
                display(&join_path(base.as_bytes(), p.as_bytes())),
                Path::new(base).join(p).display().to_string(),
                "{base} {p}"
            );
        }
    }
}

#[test]
fn relative_paths_as_the_standard_library_gives_them() {
    for base in PATHS {
        if base.is_empty() {
            continue;
        }
        for p in PATHS {
            let expected = Path::new(p).strip_prefix(base).unwrap_or(Path::new(p));
            assert_eq!(
                display(&relative_to(p.as_bytes(), base.as_bytes())),
                expected.display().to_string(),
                "{p} below {base}"
            );
        }
    }
}

#[test]
fn relative_then_joined_names_the_same_place() {
    for base in PATHS.iter().filter(|b| b.starts_with('/')) {
        for p in PATHS {
            if is_within(p.as_bytes(), base.as_bytes()) {
                let back = join_path(base.as_bytes(), &relative_to(p.as_bytes(), base.as_bytes()));
                let back = display(&back);
                assert_eq!(Path::new(&back), Path::new(p));
            }
        }
    }
}

#[test]
fn leading_separators_are_stripped() {
    for p in PATHS {
        assert_eq!(strip_root(p.as_bytes()), p.trim_start_matches('/').as_bytes(), "{p}");
    }
}

#[test]
fn bytes_that_are_not_text_are_replaced() {
    assert_eq!(display(b"/a/\xff/b"), "/a/\u{fffd}/b");
    assert_eq!(display("/é".as_bytes()), "/é");
    assert_eq!(display(b"\xff"), "\u{fffd}");
    assert_eq!(display(b""), "");
    assert_eq!(bytes("/é"), "/é".as_bytes());
    assert_eq!(copy_all(b"abc"), b"abc");
}
