use aicg::tools::preview;
use aicg::tools::scratch::{
    dir, reset, write_unique, ResetStep, Scratch, ScratchAction, ScratchReply, WriteRun, WriteStep,
    SCRATCH_DIR,
};
use std::io::{Error, ErrorKind};

fn io(text: &str) -> Error {
    Error::new(ErrorKind::Other, text)
}

/// Writes a file where the names in `taken` are in use.
fn write(scratch: &mut Scratch, taken: &[&str], prefix: &str, contents: &str) -> (String, Vec<String>) {
    let mut run = write_unique(prefix.into(), "txt".into(), contents.into());
    let mut tried = Vec::new();
    loop {
        let reply = match run.action() {
            ScratchAction::CreateDir(d) => {
                assert_eq!(d, dir());
                ScratchReply::Finished(Ok(()))
            }
            ScratchAction::CreateNew(p) => {
                let p = String::from_utf8(p).unwrap();
                let exists = taken.contains(&p.as_str());
                tried.push(p);
                if exists {
                    ScratchReply::NotOpened { exists, error: io("there") }
                } else {
                    ScratchReply::Opened
                }
            }
            ScratchAction::Write(c) => {
                assert_eq!(c, contents);
                ScratchReply::Finished(Ok(()))
            }
            other => panic!("unexpected {other:?}"),
        };
        match run.resume(scratch, reply) {
            WriteStep::Continue(next) => run = next,
            WriteStep::Done(r) => return (String::from_utf8(r.unwrap()).unwrap(), tried),
        }
    }
}

#[test]
fn files_are_numbered() {
    assert_eq!(SCRATCH_DIR, "ai-scratch");
    assert_eq!(dir(), b"ai-scratch");
    let mut s = Scratch::new();
    assert_eq!(write(&mut s, &[], "grep", "x").0, "ai-scratch/grep-0.txt");
    assert_eq!(write(&mut s, &[], "explore", "y").0, "ai-scratch/explore-1.txt");
    assert_eq!(s.counter, 2);
}

#[test]
fn names_in_use_are_passed_over() {
    let mut s = Scratch::new();
    let (path, tried) = write(&mut s, &["ai-scratch/a-0.txt", "ai-scratch/a-1.txt"], "a", "z");
    assert_eq!(path, "ai-scratch/a-2.txt");
    assert_eq!(tried, ["ai-scratch/a-0.txt", "ai-scratch/a-1.txt", "ai-scratch/a-2.txt"]);
    assert_eq!(s.counter, 3);
}

#[test]
fn numbers_wrap_around() {
    let mut s = Scratch { counter: u64::MAX };
    assert_eq!(write(&mut s, &[], "a", "").0, format!("ai-scratch/a-{}.txt", u64::MAX));
    assert_eq!(s.counter, 0);
}

#[test]
fn write_failures_end_the_run() {
    let mut s = Scratch::new();
    let start = || write_unique("a".into(), "txt".into(), "c".into());
    let step = start().resume(&mut s, ScratchReply::Finished(Err(io("mkdir"))));
    assert!(matches!(step, WriteStep::Done(Err(e)) if e.to_string() == "mkdir"));
    assert_eq!(s.counter, 0);
    let opening = |s: &mut Scratch| match start().resume(s, ScratchReply::Finished(Ok(()))) {
        WriteStep::Continue(run) => run,
        other => panic!("got {other:?}"),
    };
    let step = opening(&mut s).resume(&mut s, ScratchReply::NotOpened { exists: false, error: io("open") });
    assert!(matches!(step, WriteStep::Done(Err(e)) if e.to_string() == "open"));
    let writing = match opening(&mut s).resume(&mut s, ScratchReply::Opened) {
        WriteStep::Continue(run) => run,
        other => panic!("got {other:?}"),
    };
    let step = writing.resume(&mut s, ScratchReply::Finished(Err(io("full"))));
    assert!(matches!(step, WriteStep::Done(Err(e)) if e.to_string() == "full"));
    let step = start().resume(&mut s, ScratchReply::Flag(true));
    assert!(matches!(step, WriteStep::Continue(WriteRun::MakingDir { .. })));
}

#[test]
fn reset_wipes_and_recreates() {
    for exists in [false, true] {
        let mut s = Scratch { counter: 7 };
        let mut run = reset();
        let mut asked = Vec::new();
        loop {
            let action = run.action();
            let reply = match &action {
                ScratchAction::Exists(_) => ScratchReply::Flag(exists),
                _ => ScratchReply::Finished(Ok(())),
            };
            asked.push(format!("{action:?}"));
            match run.resume(&mut s, reply) {
                ResetStep::Continue(next) => run = next,
                ResetStep::Done(r) => {
                    assert!(r.is_ok());
                    break;
                }
            }
        }
        assert_eq!(s.counter, 0);
        assert_eq!(asked.len(), if exists { 3 } else { 2 });
        assert_eq!(asked.iter().any(|a| a.starts_with("RemoveAll")), exists);
        assert!(asked.last().unwrap().starts_with("CreateDir"));
    }
}

#[test]
fn failed_reset_keeps_the_numbers() {
    let mut s = Scratch { counter: 7 };
    let ResetStep::Continue(run) = reset().resume(&mut s, ScratchReply::Flag(true)) else { panic!("done") };
    let step = run.resume(&mut s, ScratchReply::Finished(Err(io("busy"))));
    assert!(matches!(step, ResetStep::Done(Err(_))));
    let ResetStep::Continue(run) = reset().resume(&mut s, ScratchReply::Flag(false)) else { panic!("done") };
    let step = run.resume(&mut s, ScratchReply::Finished(Err(io("full"))));
    assert!(matches!(step, ResetStep::Done(Err(_))));
    assert_eq!(s.counter, 7);
}

#[test]
fn previews() {
    assert_eq!(preview("", 3), "");
    assert_eq!(preview("a\nb\nc", 3), "a\nb\nc");
    assert_eq!(preview("a\nb\nc\n", 3), "a\nb\nc");
    assert_eq!(preview("a\nb\nc\nd\ne", 3), "a\nb\nc\n… (2 more lines)");
    assert_eq!(preview("a\nb", 0), "\n… (2 more lines)");
    assert_eq!(preview("a\r\nb\r\nc", 2), "a\nb\n… (1 more lines)");
}
