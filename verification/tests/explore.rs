use aicg::tools::explore::{
    find_matches, is_skipped, list_children, ExploreArgs, ExploreError, ExploreOutput, ExploreStep,
};
use aicg::tools::{Action, Child, Explore, Reply, Walked};
use std::io::{Error, ErrorKind};

fn walked(path: &str, is_file: bool) -> Walked {
    let name = path.rsplit('/').next().map(String::from);
    Walked { path: path.as_bytes().to_vec(), name, is_file }
}

fn child(name: &[u8], is_dir: Option<bool>) -> Child {
    Child { name: name.to_vec(), is_dir }
}

fn call(path: Option<&str>, pattern: Option<&str>) -> (Result<ExploreOutput, ExploreError>, String) {
    let mut run = Explore.call(ExploreArgs {
        path: path.map(String::from),
        pattern: pattern.map(String::from),
    });
    let mut spooled = String::new();
    loop {
        let reply = match run.action() {
            Action::WorkingDir => Reply::Path(Ok(b"/work".to_vec())),
            Action::Resolve(p) => match p.as_slice() {
                b"/work/." => Reply::Path(Ok(b"/work".to_vec())),
                b"/work/gone" => Reply::Path(Err(Error::new(ErrorKind::NotFound, "not there"))),
                _ => Reply::Path(Ok(p)),
            },
            Action::IsDir(p) => Reply::Flag(!p.ends_with(b".rs")),
            Action::List(p) => {
                if p.ends_with(b"locked") {
                    Reply::Children(Err(Error::new(ErrorKind::PermissionDenied, "denied")))
                } else {
                    Reply::Children(Ok(vec![
                        child(b"src", Some(true)),
                        child(b"b.txt", Some(false)),
                        child(b"odd", None),
                        child(b"\xff", Some(true)),
                        child(b"a.txt", Some(false)),
                    ]))
                }
            }
            Action::Walk(p) => {
                if p.ends_with(b"locked") {
                    Reply::Walked(Err(Error::new(ErrorKind::PermissionDenied, "denied")))
                } else {
                    Reply::Walked(Ok(vec![
                        walked("/work", false),
                        walked("/work/src/z.rs", true),
                        walked("/work/dir.rs", false),
                        walked("/work/a.rs", true),
                        walked("/work/a.txt", true),
                        Walked { path: b"/work/\xff.rs".to_vec(), name: None, is_file: true },
                    ]))
                }
            }
            Action::Spool { prefix, extension, contents } => {
                assert_eq!((prefix.as_str(), extension.as_str()), ("explore", "txt"));
                spooled = contents;
                Reply::Spooled(Ok(b"ai-scratch/explore-3.txt".to_vec()))
            }
            other => panic!("unexpected {other:?}"),
        };
        match run.resume(reply) {
            ExploreStep::Continue(next) => run = next,
            ExploreStep::Done(r) => return (r, spooled),
        }
    }
}

#[test]
fn lists_a_directory() {
    for pattern in [None, Some("")] {
        let (r, spooled) = call(None, pattern);
        let out = r.unwrap();
        assert_eq!(out.count, 5);
        assert_eq!(out.scratch_file, "ai-scratch/explore-3.txt");
        assert_eq!(out.preview, "a.txt\nb.txt\nodd\nsrc/\n\u{fffd}/");
        assert_eq!(spooled, out.preview);
    }
}

#[test]
fn finds_files_by_wildcard() {
    let (r, spooled) = call(Some("."), Some("*.rs"));
    let out = r.unwrap();
    assert_eq!(out.count, 2);
    assert_eq!(out.preview, "a.rs\nsrc/z.rs");
    assert_eq!(spooled, "a.rs\nsrc/z.rs");
    let out = call(None, Some("?.[!r]*")).0.unwrap();
    assert_eq!(out.preview, "a.txt");
    let out = call(None, Some("nothing")).0.unwrap();
    assert_eq!((out.count, out.preview.as_str()), (0, ""));
}

#[test]
fn bad_wildcard_is_refused() {
    let e = call(None, Some("a***")).0.unwrap_err();
    assert!(matches!(e, ExploreError::BadPattern { .. }));
    let expected = glob::Pattern::new("a***").unwrap_err().to_string();
    assert_eq!(e.message(), format!("invalid wildcard pattern 'a***': {expected}"));
}

#[test]
fn explore_errors() {
    let message = |path: &str, pattern: Option<&str>| call(Some(path), pattern).0.unwrap_err().message();
    assert_eq!(message("/etc", None), "'/etc' is outside the current working directory");
    assert_eq!(message("main.rs", None), "'main.rs' is not a directory");
    assert_eq!(message("gone", None), "failed while exploring 'gone': not there");
    assert_eq!(message("locked", None), "failed while exploring 'locked': denied");
    assert_eq!(message("locked", Some("*")), "failed while exploring 'locked': denied");
    let io = || Error::new(ErrorKind::Other, "boom");
    assert_eq!(ExploreError::Scratch(io()).message(), "could not write scratch file: boom");
    assert_eq!(
        ExploreError::Cwd(io()).message(),
        "could not determine the current working directory: boom"
    );
}

#[test]
fn noisy_directories_are_skipped() {
    for d in [".git", "target", "node_modules", "ai-scratch"] {
        assert!(is_skipped(1, true, Some(d)));
        assert!(!is_skipped(0, true, Some(d)));
        assert!(!is_skipped(1, false, Some(d)));
    }
    assert!(!is_skipped(1, true, Some("src")));
    assert!(!is_skipped(1, true, None));
}

#[test]
fn order_of_reading_does_not_matter() {
    let a = vec![child(b"x", None), child(b"d", Some(true)), child(b"a", Some(false))];
    let b = vec![child(b"a", Some(false)), child(b"x", None), child(b"d", Some(true))];
    assert_eq!(list_children(&a), ["a", "d/", "x"]);
    assert_eq!(list_children(&a), list_children(&b));
    let p = glob::Pattern::new("*").unwrap();
    let a = vec![walked("/w/b", true), walked("/elsewhere/a", true), walked("/w/d", false)];
    let b = vec![walked("/w/d", false), walked("/elsewhere/a", true), walked("/w/b", true)];
    assert_eq!(find_matches(&a, &p, b"/w"), ["/elsewhere/a", "b"]);
    assert_eq!(find_matches(&a, &p, b"/w"), find_matches(&b, &p, b"/w"));
}

#[test]
fn explore_definition() {
    let d = Explore.definition();
    assert_eq!(d.name, "explore");
    assert_eq!(
        d.description,
        "List a directory, or recursively find files matching a wildcard `pattern`. Output saved to a scratch file."
    );
    let names: Vec<&str> = d.parameters.iter().map(|p| p.name.as_str()).collect();
    assert_eq!(names, ["path", "pattern"]);
    assert!(d.required.is_empty());
}
