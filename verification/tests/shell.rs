use aicg::shell::{
    calling_shell, clear_scratch, history_path, log_filter, resolve_cd, Command, Input, Shell,
};
use std::path::Path;

fn shell() -> Shell {
    Shell::new(Some(b"/work".to_vec()))
}

fn command(line: &str) -> Command {
    shell().interpret(line, Some("/home/me")).command
}

#[test]
fn blank_lines_are_skipped() {
    for l in ["", "  ", "\n", " \t\n"] {
        let e = shell().interpret(l, None);
        assert!(e.history.is_none());
        assert!(matches!(e.command, Command::Skip));
    }
}

#[test]
fn own_words_are_recognized() {
    assert!(matches!(command("exit"), Command::Quit));
    assert!(matches!(command(" quit \n"), Command::Quit));
    assert!(matches!(command("/clear"), Command::Clear));
    assert!(matches!(command("exit now"), Command::Run(s) if s == "exit now"));
}

#[test]
fn at_sign_asks_the_model() {
    assert!(matches!(command("@ what is this? "), Command::Ask(q) if q == "what is this?"));
    assert!(matches!(command("@hi"), Command::Ask(q) if q == "hi"));
    assert!(matches!(command("@"), Command::Skip));
    let e = shell().interpret("@  ", None);
    assert!(matches!(e.command, Command::Skip));
    assert_eq!(e.history.as_deref(), Some("@"));
}

#[test]
fn cd_is_handled_in_process() {
    assert!(matches!(command("cd"), Command::ChangeDir(d) if d == b"/home/me"));
    assert!(matches!(command("cd  src "), Command::ChangeDir(d) if d == b"/work/src"));
    assert!(matches!(command("cd /etc"), Command::ChangeDir(d) if d == b"/etc"));
    assert!(matches!(command("cdx"), Command::Run(s) if s == "cdx"));
    assert!(matches!(command("cd\tx"), Command::Run(s) if s == "cd\tx"));
}

#[test]
fn everything_else_is_forwarded_verbatim() {
    let e = shell().interpret("  ls -la | wc\n", None);
    assert_eq!(e.history.as_deref(), Some("ls -la | wc"));
    assert!(matches!(e.command, Command::Run(s) if s == "ls -la | wc"));
}

#[test]
fn cd_targets_are_resolved() {
    let at = |target: &str, home: Option<&str>| {
        String::from_utf8(resolve_cd(b"/work", target, home)).unwrap()
    };
    assert_eq!(at("", Some("/home/me")), "/home/me");
    assert_eq!(at("~", Some("/home/me")), "/home/me");
    assert_eq!(at("~/x/y", Some("/home/me")), "/home/me/x/y");
    assert_eq!(at("~/x", Some("/home/me/")), "/home/me/x");
    assert_eq!(at("~/", Some("/home/me")), "/home/me/");
    assert_eq!(at("~//etc", Some("/home/me")), "/home/me/etc");
    assert_eq!(at("~////etc//x", Some("/home/me")), "/home/me/etc//x");
    assert_eq!(at("~//x", Some("home")), "/work/home/x");
    assert_eq!(at("~//x", None), "/work/~//x");
    assert_eq!(at("~other", Some("/home/me")), "/work/~other");
    assert_eq!(at("", Some("home")), "/work/home");
    assert_eq!(at("", None), "/work");
    assert_eq!(at("~", None), "/work");
    assert_eq!(at("~/x", None), "/work/~/x");
    assert_eq!(at("..", None), "/work/..");
    assert_eq!(at("/etc", None), "/etc");
}

#[test]
fn home_targets_stay_below_home() {
    for target in ["~/", "~/x", "~//", "~//etc", "~/./x", "~///a//b/", "~/é"] {
        let dir = resolve_cd(b"/work", target, Some("/home/u"));
        let expected = format!("/home/u/{}", &target[2..]);
        assert_eq!(Path::new(std::str::from_utf8(&dir).unwrap()), Path::new(&expected), "{target}");
    }
}

#[test]
fn relative_shell_without_home_stays() {
    assert_eq!(resolve_cd(b".", "", None), b"./.");
    assert_eq!(Shell::new(None).cwd, b".");
}

#[test]
fn changing_directory_updates_the_prompt() {
    let mut s = shell();
    assert_eq!(s.prompt(), "/work ❯ ");
    assert!(s.changed(b"/a/../b".to_vec(), Ok(Some(b"/b".to_vec()))).is_none());
    assert_eq!(s.prompt(), "/b ❯ ");
    assert!(s.changed(b"/c".to_vec(), Ok(None)).is_none());
    assert_eq!(s.prompt(), "/c ❯ ");
    let w = s.changed(b"/nowhere".to_vec(), Err("No such file".to_string()));
    assert_eq!(w.as_deref(), Some("cd: /nowhere: No such file"));
    assert_eq!(s.cwd, b"/c");
}

#[test]
fn input_is_read() {
    let read = |i: Input| {
        let r = i.read();
        (r.line, r.error)
    };
    assert_eq!(read(Input::Edited("x".into())), (Some("x".into()), None));
    assert_eq!(read(Input::Signal), (Some(String::new()), None));
    assert_eq!(read(Input::Eof), (None, None));
    assert_eq!(read(Input::PromptRefused), (None, None));
    assert_eq!(read(Input::Plain { count: 2, line: "x\n".into() }), (Some("x\n".into()), None));
    assert_eq!(read(Input::Plain { count: 0, line: String::new() }), (None, None));
    assert_eq!(read(Input::Failed("boom".into())), (None, Some("read error: boom".into())));
}

#[test]
fn defaults() {
    assert_eq!(calling_shell(None), "/bin/sh");
    assert_eq!(calling_shell(Some("/bin/zsh".into())), "/bin/zsh");
    assert_eq!(history_path(Some(b"/home/me")), Some(b"/home/me/.aicg_history".to_vec()));
    assert_eq!(history_path(None), None);
    assert_eq!(log_filter(0), "warn,aicg=info");
    assert_eq!(log_filter(1), "warn,aicg=debug");
    assert_eq!(log_filter(2), "warn,aicg=trace");
    assert_eq!(log_filter(255), "warn,aicg=trace");
}

#[test]
fn failed_wipe_is_a_warning() {
    assert_eq!(clear_scratch(Ok(())), None);
    assert_eq!(
        clear_scratch(Err("denied".into())).as_deref(),
        Some("could not reset ai-scratch: denied")
    );
}
