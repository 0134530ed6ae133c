use aicg::tools::read_file::{ReadFileArgs, ReadFileError, ReadFileOutput, ReadFileRun, ReadFileStep};
use aicg::tools::{Action, ParameterKind, PathError, ReadFile, Reply};
use std::io::{Error, ErrorKind};

/// A file system with `/etc/hosts` and the package `/work`, in which the tool
/// runs.
fn answer(action: Action) -> Reply {
    let text = |p: Vec<u8>| String::from_utf8(p).unwrap();
    match action {
        Action::WorkingDir => Reply::Path(Ok(b"/work".to_vec())),
        Action::Resolve(p) => {
            let mut parts: Vec<&str> = Vec::new();
            let p = text(p);
            for part in p.split('/') {
                match part {
                    "" | "." => {}
                    ".." => {
                        parts.pop();
                    }
                    name => parts.push(name),
                }
            }
            let full = format!("/{}", parts.join("/"));
            match full.as_str() {
                "/work" | "/work/src" | "/work/Cargo.toml" | "/etc/hosts" => {
                    Reply::Path(Ok(full.into_bytes()))
                }
                _ => Reply::Path(Err(Error::new(ErrorKind::NotFound, "no such file"))),
            }
        }
        Action::IsFile(p) => Reply::Flag(text(p).ends_with("Cargo.toml")),
        Action::ReadText(p) => {
            assert_eq!(text(p), "/work/Cargo.toml");
            Reply::Text(Ok("[package]\n".to_string()))
        }
        other => panic!("unexpected {other:?}"),
    }
}

fn read(path: &str) -> Result<ReadFileOutput, ReadFileError> {
    let mut run = ReadFile.call(ReadFileArgs { path: path.to_string() });
    loop {
        let reply = answer(run.action());
        match run.resume(reply) {
            ReadFileStep::Continue(next) => run = next,
            ReadFileStep::Done(r) => return r,
        }
    }
}

#[test]
fn reads_a_file_inside_cwd() {
    let out = read("Cargo.toml").expect("should read Cargo.toml");
    assert!(out.contents.contains("[package]"));
    assert_eq!(out.path, "/work/Cargo.toml");
    assert_eq!(out.contents, "[package]\n");
}

#[test]
fn rejects_absolute_path_outside_cwd() {
    let err = read("/etc/hosts").unwrap_err();
    assert!(matches!(err, ReadFileError::OutsideCwd(_)), "got {err:?}");
    assert_eq!(err.message(), "'/etc/hosts' is outside the current working directory");
}

#[test]
fn rejects_traversal_escaping_cwd() {
    let path = format!("{}etc/hosts", "../".repeat(2));
    let err = read(&path).unwrap_err();
    assert!(matches!(err, ReadFileError::OutsideCwd(_)), "got {err:?} for {path}");
}

#[test]
fn rejects_a_directory() {
    let err = read("src").unwrap_err();
    assert!(matches!(err, ReadFileError::NotAFile(_)), "got {err:?}");
    assert_eq!(err.message(), "'src' is not a regular file");
}

#[test]
fn missing_file_is_an_io_error() {
    let err = read("does-not-exist-xyz.txt").unwrap_err();
    assert!(matches!(err, ReadFileError::Io { .. }), "got {err:?}");
    assert_eq!(err.message(), "could not read 'does-not-exist-xyz.txt': no such file");
}

#[test]
fn unknown_working_directory_is_an_error() {
    let run = ReadFile.call(ReadFileArgs { path: "x".to_string() });
    assert!(matches!(run.action(), Action::WorkingDir));
    match run.resume(Reply::Path(Err(Error::new(ErrorKind::Other, "gone")))) {
        ReadFileStep::Done(Err(e)) => assert_eq!(
            e.message(),
            "could not determine the current working directory: gone"
        ),
        other => panic!("got {other:?}"),
    }
}

#[test]
fn unreadable_contents_are_an_io_error() {
    let mut run = ReadFile.call(ReadFileArgs { path: "Cargo.toml".to_string() });
    loop {
        let reply = match run.action() {
            Action::ReadText(_) => Reply::Text(Err(Error::new(ErrorKind::InvalidData, "not UTF-8"))),
            a => answer(a),
        };
        match run.resume(reply) {
            ReadFileStep::Continue(next) => run = next,
            ReadFileStep::Done(r) => {
                assert_eq!(r.unwrap_err().message(), "could not read 'Cargo.toml': not UTF-8");
                return;
            }
        }
    }
}

#[test]
fn another_reply_changes_nothing() {
    let run = ReadFile.call(ReadFileArgs { path: "x".to_string() });
    match run.resume(Reply::Flag(true)) {
        ReadFileStep::Continue(ReadFileRun::Locating(_)) => {}
        other => panic!("got {other:?}"),
    }
}

#[test]
fn read_file_definition() {
    let d = ReadFile.definition();
    assert_eq!(d.name, "read_file");
    assert_eq!(d.description, "Read a text file in the working directory.");
    assert_eq!(d.parameters.len(), 1);
    assert_eq!(d.parameters[0].name, "path");
    assert_eq!(d.parameters[0].kind, ParameterKind::Text);
    assert_eq!(d.required, ["path"]);
}

#[test]
fn path_errors_have_messages() {
    let io = || Error::new(ErrorKind::Other, "boom");
    assert_eq!(
        PathError::Cwd(io()).message(),
        "could not determine the current working directory: boom"
    );
    assert_eq!(
        PathError::OutsideCwd("p".into()).message(),
        "'p' is outside the current working directory"
    );
    assert_eq!(
        PathError::Resolve { path: "p".into(), source: io() }.message(),
        "could not resolve 'p': boom"
    );
}
