use aicg::tools::grep::{
    is_allowed_flag, validate_flags, GrepArgs, GrepError, GrepOutput, GrepRun, GrepStep,
    ALLOWED_FLAGS, ALLOWED_VALUE_FLAGS,
};
use aicg::tools::{Action, Grep, GrepReport, ParameterKind, Reply};
use std::io::{Error, ErrorKind};

#[test]
fn allows_common_readonly_flags() {
    for f in ["-i", "-n", "-r", "--recursive", "-A3", "-A", "3", "--include=*.rs", "-C", "5"] {
        assert!(is_allowed_flag(f), "{f} should be allowed");
    }
}

#[test]
fn rejects_unknown_or_unsafe_flags() {
    // Not real grep flags / could name files / not on the allow-list.
    for f in ["--foo", "-Z--evil", "/etc/passwd", "..", "-d", "--devices=read"] {
        assert!(!is_allowed_flag(f), "{f} should be rejected");
    }
}

#[test]
fn attached_values() {
    for f in ["-A=3", "-m5", "--color=never", "--context=", "--exclude-dir=target"] {
        assert!(is_allowed_flag(f), "{f} should be allowed");
    }
    for f in ["", "--contextual", "--includes", "-", "--", "3a", "-e", "-f", "٣", "-ii"] {
        assert!(!is_allowed_flag(f), "{f} should be rejected");
    }
    for f in ALLOWED_FLAGS.iter().chain(ALLOWED_VALUE_FLAGS.iter()) {
        assert!(is_allowed_flag(f));
    }
}

#[test]
fn first_disallowed_flag_is_named() {
    let flags: Vec<String> = ["-i", "x", "y"].iter().map(|s| s.to_string()).collect();
    let e = validate_flags(&flags).unwrap_err();
    assert!(matches!(&e, GrepError::DisallowedFlag(f) if f == "x"));
    assert_eq!(
        e.message(),
        "flag 'x' is not allowed; grep is restricted to read-only options"
    );
    assert!(validate_flags(&flags[..1]).is_ok());
    assert!(validate_flags(&[]).is_ok());
}

fn flags(list: &[&str]) -> Vec<String> {
    list.iter().map(|s| s.to_string()).collect()
}

#[test]
fn split_flags_need_a_number() {
    for ok in [
        &["-A", "3"][..], &["-r", "-C", "5", "-n"], &["--max-count", "1", "-m", "0"],
        &["--color"], &["--color", "-i"], &["--include", "7"], &["-A3", "-i"], &["-A=", "-i"],
        &["3"], &["-A", "3", "-B", "3"],
    ] {
        assert!(validate_flags(&flags(ok)).is_ok(), "{ok:?}");
    }
    for (bad, named) in [
        (&["-A", "-i"][..], "-A"), (&["-A"], "-A"), (&["-i", "--include"], "--include"),
        (&["--exclude"], "--exclude"), (&["-r", "--exclude-dir"], "--exclude-dir"),
        (&["-A", "-B", "3"], "-A"), (&["-A", "3", "-m"], "-m"), (&["-C", "--color"], "-C"),
        (&["-A", "-i", "x"], "x"), (&["--include", "*.rs"], "*.rs"),
    ] {
        match validate_flags(&flags(bad)) {
            Err(GrepError::DisallowedFlag(f)) => assert_eq!(f, named, "{bad:?}"),
            other => panic!("got {other:?} for {bad:?}"),
        }
    }
    for f in ALLOWED_VALUE_FLAGS {
        assert_eq!(validate_flags(&flags(&[f])).is_ok(), f == "--color", "{f}");
        assert!(validate_flags(&flags(&[f, "2"])).is_ok(), "{f}");
    }
}

#[test]
fn pattern_is_never_the_value_of_a_flag() {
    let args = |list: &[&str]| GrepArgs {
        pattern: "-v".into(),
        path: None,
        flags: flags(list),
    };
    let step = Grep.call(args(&["-r", "--include"]));
    assert!(matches!(step, GrepStep::Done(Err(GrepError::DisallowedFlag(f))) if f == "--include"));
    let (_, asked) = run(args(&["--include", "3"]), report(Some(1), b"", b""));
    match &asked[2] {
        Action::Grep(argv) => {
            let argv: Vec<&str> = argv.iter().map(|a| std::str::from_utf8(a).unwrap()).collect();
            assert_eq!(argv, ["--include", "3", "-e", "-v", "--", "/work"]);
        }
        other => panic!("got {other:?}"),
    }
}

#[test]
fn rejects_disallowed_flag_at_call() {
    let step = Grep.call(GrepArgs {
        pattern: "x".into(),
        path: None,
        flags: vec!["--write-me".into()],
    });
    match step {
        GrepStep::Done(Err(err)) => {
            assert!(matches!(err, GrepError::DisallowedFlag(_)), "got {err:?}")
        }
        other => panic!("got {other:?}"),
    }
}

/// Runs a call in `/work`, where every path resolves to itself.
fn run(args: GrepArgs, report: GrepReport) -> (Result<GrepOutput, GrepError>, Vec<Action>) {
    let mut asked = Vec::new();
    let mut report = Some(report);
    let mut step = Grep.call(args);
    loop {
        match step {
            GrepStep::Done(r) => return (r, asked),
            GrepStep::Continue(next) => {
                let action = next.action();
                let reply = match &action {
                    Action::WorkingDir => Reply::Path(Ok(b"/work".to_vec())),
                    Action::Resolve(p) if p == b"/work/." => Reply::Path(Ok(b"/work".to_vec())),
                    Action::Resolve(p) => Reply::Path(Ok(p.clone())),
                    Action::Grep(_) => Reply::Grepped(Ok(report.take().unwrap())),
                    Action::Spool { .. } => Reply::Spooled(Ok(b"ai-scratch/grep-0.txt".to_vec())),
                    other => panic!("unexpected {other:?}"),
                };
                asked.push(action);
                step = next.resume(reply);
            }
        }
    }
}

fn report(code: Option<i32>, stdout: &[u8], stderr: &[u8]) -> GrepReport {
    GrepReport { code, stdout: stdout.to_vec(), stderr: stderr.to_vec() }
}

#[test]
fn rejects_path_outside_cwd() {
    let args = GrepArgs { pattern: "root".into(), path: Some("/etc/hosts".into()), flags: vec![] };
    let (r, asked) = run(args, report(Some(0), b"", b""));
    let err = r.unwrap_err();
    assert!(matches!(err, GrepError::OutsideCwd(_)), "got {err:?}");
    assert!(!asked.iter().any(|a| matches!(a, Action::Grep(_))));
}

#[test]
fn output_is_spooled_and_previewed() {
    let args = GrepArgs {
        pattern: "-x".into(),
        path: None,
        flags: vec!["-r".into(), "-A".into(), "3".into()],
    };
    let (r, asked) = run(args, report(Some(0), b"a:1\nb:\xff\n", b"warn"));
    let out = r.unwrap();
    assert_eq!(out.lines, 2);
    assert_eq!(out.exit_code, 0);
    assert_eq!(out.scratch_file.as_deref(), Some("ai-scratch/grep-0.txt"));
    assert_eq!(out.preview, "a:1\nb:\u{fffd}");
    match &asked[2] {
        Action::Grep(argv) => {
            let argv: Vec<&str> = argv.iter().map(|a| std::str::from_utf8(a).unwrap()).collect();
            assert_eq!(argv, ["-r", "-A", "3", "-e", "-x", "--", "/work"]);
        }
        other => panic!("got {other:?}"),
    }
    match &asked[3] {
        Action::Spool { prefix, extension, contents } => {
            assert_eq!((prefix.as_str(), extension.as_str()), ("grep", "txt"));
            assert_eq!(contents, "a:1\nb:\u{fffd}\n");
        }
        other => panic!("got {other:?}"),
    }
}

#[test]
fn long_output_is_truncated_in_the_preview() {
    let text: String = (0..45).map(|i| format!("line {i}\n")).collect();
    let args = GrepArgs { pattern: "l".into(), path: Some("f".into()), flags: vec![] };
    let out = run(args, report(Some(0), text.as_bytes(), b"")).0.unwrap();
    assert_eq!(out.lines, 45);
    assert!(out.preview.ends_with("line 39\n… (5 more lines)"));
    assert_eq!(out.preview.lines().count(), 41);
}

#[test]
fn silence_surfaces_the_error_text() {
    let args = || GrepArgs { pattern: "x".into(), path: None, flags: vec![] };
    let out = run(args(), report(Some(2), b"", b"grep: .: Is a directory\n")).0.unwrap();
    assert_eq!((out.lines, out.exit_code), (0, 2));
    assert!(out.scratch_file.is_none());
    assert_eq!(out.preview, "grep: .: Is a directory\n");
    let out = run(args(), report(None, b"", b"")).0.unwrap();
    assert_eq!(out.exit_code, -1);
}

#[test]
fn anything_printed_is_spooled() {
    let args = || GrepArgs { pattern: "x".into(), path: None, flags: vec![] };
    for (stdout, text) in [
        (&b"\xff"[..], "\u{fffd}"), (b"\n", "\n"), (b"\0", "\0"), (b"\xc3", "\u{fffd}"), (b"a", "a"),
    ] {
        let (r, asked) = run(args(), report(Some(0), stdout, b"warn"));
        let out = r.unwrap();
        assert_eq!(out.scratch_file.as_deref(), Some("ai-scratch/grep-0.txt"), "{text:?}");
        assert_eq!(out.lines, 1, "{text:?}");
        assert!(matches!(&asked[3], Action::Spool { contents, .. } if contents == text));
    }
    let (r, asked) = run(args(), report(Some(0), b"", b"warn"));
    let out = r.unwrap();
    assert_eq!((out.lines, out.scratch_file, out.preview.as_str()), (0, None, "warn"));
    assert!(!asked.iter().any(|a| matches!(a, Action::Spool { .. })));
}

#[test]
fn failure_surfaces_the_error_text() {
    let args = || GrepArgs { pattern: "x".into(), path: None, flags: vec!["-r".into()] };
    for code in [Some(2), None, Some(127)] {
        let (r, asked) = run(args(), report(code, b"a\nb\n", b"grep: c: \xff denied\n"));
        let out = r.unwrap();
        assert_eq!(out.lines, 2);
        assert_eq!(out.exit_code, code.unwrap_or(-1));
        assert_eq!(out.scratch_file.as_deref(), Some("ai-scratch/grep-0.txt"));
        assert_eq!(out.preview, "grep: c: \u{fffd} denied\n");
        assert!(matches!(&asked[3], Action::Spool { contents, .. } if contents == "a\nb\n"));
    }
    let out = run(args(), report(Some(2), b"a\n", b"")).0.unwrap();
    assert_eq!((out.exit_code, out.preview.as_str()), (2, "a"));
    let out = run(args(), report(Some(1), b"a\n", b"warn")).0.unwrap();
    assert_eq!((out.exit_code, out.preview.as_str()), (1, "a"));
}

#[test]
fn grep_failures() {
    let io = || Error::new(ErrorKind::Other, "boom");
    let start = || {
        let step = Grep.call(GrepArgs { pattern: "x".into(), path: Some("f".into()), flags: vec![] });
        let GrepStep::Continue(run) = step else { panic!("done") };
        let GrepStep::Continue(run) = run.resume(Reply::Path(Ok(b"/work".to_vec()))) else { panic!("done") };
        run
    };
    let done = |step: GrepStep| match step {
        GrepStep::Done(r) => r.unwrap_err().message(),
        other => panic!("got {other:?}"),
    };
    assert_eq!(done(start().resume(Reply::Path(Err(io())))), "could not resolve 'f': boom");
    let located = || match start().resume(Reply::Path(Ok(b"/work/f".to_vec()))) {
        GrepStep::Continue(run) => run,
        other => panic!("got {other:?}"),
    };
    assert_eq!(done(located().resume(Reply::Grepped(Err(io())))), "failed to run grep: boom");
    let spooling = match located().resume(Reply::Grepped(Ok(report(Some(0), b"x", b"")))) {
        GrepStep::Continue(run) => run,
        other => panic!("got {other:?}"),
    };
    assert_eq!(
        done(spooling.resume(Reply::Spooled(Err(io())))),
        "could not write scratch file: boom"
    );
    match located().resume(Reply::Flag(true)) {
        GrepStep::Continue(GrepRun::Running { .. }) => {}
        other => panic!("got {other:?}"),
    }
    assert_eq!(
        GrepError::Cwd(io()).message(),
        "could not determine the current working directory: boom"
    );
}

#[test]
fn grep_definition() {
    let d = Grep.definition();
    assert_eq!(d.name, "grep");
    assert!(d.description.contains("-A/-B/-C N, --include=GLOB); file-writing"));
    let names: Vec<&str> = d.parameters.iter().map(|p| p.name.as_str()).collect();
    assert_eq!(names, ["pattern", "path", "flags"]);
    assert_eq!(d.parameters[2].kind, ParameterKind::TextList);
    assert_eq!(d.required, ["pattern"]);
}
