//! How the shell understands a line, and where it stands.

use crate::paths::{
    absolute, bytes, components, display, join_path, joined, lossy, segments, strip_root, unrooted,
    within,
};
use crate::text::{
    chars_of, core_of, law_trim_cuts_white_space, same, slice, strip_prefix, trim, trimmed,
    white_space,
};
use vstd::prelude::*;
use vstd::string::*;
use vstd::utf8::encode_utf8;

verus! {

/// The shell that runs commands when none is set.
pub const DEFAULT_SHELL: &'static str = "/bin/sh";

/// The name of the history file in the home directory.
pub const HISTORY_FILE: &'static str = ".aicg_history";

/// What a line asks for.
#[derive(Debug)]
pub enum Command {
    /// Nothing.
    Skip,
    /// To leave the shell.
    Quit,
    /// To forget the conversation so far.
    Clear,
    /// To ask the model.
    Ask(String),
    /// To change to a directory.
    ChangeDir(Vec<u8>),
    /// To run a command in the calling shell.
    Run(String),
}

/// A line as the shell understands it.
#[derive(Debug)]
pub struct Entry {
    /// What to add to the history.
    pub history: Option<String>,
    pub command: Command,
}

/// Where a `cd` to `target` leads: home without a target or with `~`, a place
/// below home with `~/...`, anything else relative to the current directory.
pub open spec fn cd_path(cwd: Seq<u8>, target: Seq<char>, home: Option<Seq<char>>) -> Seq<u8> {
    let expanded = if target.len() == 0 || target == "~"@ {
        match home {
            Some(h) => encode_utf8(h),
            None => cwd,
        }
    } else if "~/"@.is_prefix_of(target) {
        match home {
            Some(h) => joined(
                encode_utf8(h),
                unrooted(encode_utf8(target.skip("~/"@.len() as int))),
            ),
            None => encode_utf8(target),
        }
    } else {
        encode_utf8(target)
    };
    joined(cwd, expanded)
}

/// The view of an optional text.
pub open spec fn text_of(t: Option<&str>) -> Option<Seq<char>> {
    match t {
        Some(s) => Some(s@),
        None => None,
    }
}

/// Resolves a `cd` target relative to `cwd`, expanding `~` and `~/...` with the
/// home directory.
pub fn resolve_cd(cwd: &[u8], target: &str, home: Option<&str>) -> (dir: Vec<u8>)
    ensures
        dir@ == cd_path(cwd@, target@, text_of(home)),
{
    let expanded = if target.is_empty() || same(target, "~") {
        match home {
            Some(h) => bytes(h),
            None => crate::paths::copy_all(cwd),
        }
    } else {
        match strip_prefix(target, "~/") {
            Some(rest) => match home {
                Some(h) => join_path(
                    h.as_bytes(),
                    strip_root(rest.as_str().as_bytes()).as_slice(),
                ),
                None => bytes(target),
            },
            None => bytes(target),
        }
    };
    join_path(cwd, expanded.as_slice())
}

/// Whether `c` is what a line without white space around it asks for.
pub open spec fn means(
    t: Seq<char>,
    cwd: Seq<u8>,
    home: Option<Seq<char>>,
    c: Command,
) -> bool {
    if t.len() == 0 {
        c == Command::Skip
    } else if t == "exit"@ || t == "quit"@ {
        c == Command::Quit
    } else if t == "/clear"@ {
        c == Command::Clear
    } else if t[0] == '@' {
        let query = trimmed(t.skip(1));
        if query.len() == 0 {
            c == Command::Skip
        } else {
            c matches Command::Ask(q) && q@ == query
        }
    } else if t == "cd"@ || "cd "@.is_prefix_of(t) {
        c matches Command::ChangeDir(d) && d@ == cd_path(cwd, trimmed(t.skip(2)), home)
    } else {
        c matches Command::Run(r) && r@ == t
    }
}

/// The shell's own state.
#[derive(Debug)]
pub struct Shell {
    /// The current directory.
    pub cwd: Vec<u8>,
}

impl Shell {
    /// A shell in the given directory, or in `.` if it is not known.
    pub fn new(cwd: Option<Vec<u8>>) -> (s: Shell)
        ensures
            s.cwd@ == (match cwd {
                Some(d) => d@,
                None => encode_utf8("."@),
            }),
    {
        match cwd {
            Some(cwd) => Shell { cwd },
            None => Shell { cwd: bytes(".") },
        }
    }

    /// The prompt: the current directory and an arrow.
    pub fn prompt(&self) -> (s: String)
        ensures
            s@ == lossy(self.cwd@) + " ❯ "@,
    {
        display(self.cwd.as_slice()).concat(" ❯ ")
    }

    /// What a line asks for. Every line that is not blank goes to the history.
    pub fn interpret(&self, line: &str, home: Option<&str>) -> (e: Entry)
        ensures
            means(trimmed(line@), self.cwd@, text_of(home), e.command),
            match e.history {
                Some(h) => trimmed(line@).len() > 0 && h@ == trimmed(line@),
                None => trimmed(line@).len() == 0,
            },
    {
        let text = trim(line);
        if text.as_str().is_empty() {
            return Entry { history: None, command: Command::Skip };
        }
        let v = chars_of(text.as_str());
        let command = if same(text.as_str(), "exit") || same(text.as_str(), "quit") {
            Command::Quit
        } else if same(text.as_str(), "/clear") {
            Command::Clear
        } else if v[0] == '@' {
            assert(v@.skip(1) =~= v@.subrange(1, v@.len() as int));
            let query = trim(slice(&v, 1, v.len()).as_str());
            if query.as_str().is_empty() {
                Command::Skip
            } else {
                Command::Ask(query)
            }
        } else if same(text.as_str(), "cd") || strip_prefix(text.as_str(), "cd ").is_some() {
            proof {
                reveal_strlit("cd");
                reveal_strlit("cd ");
                assert(v@.skip(2) =~= v@.subrange(2, v@.len() as int));
            }
            let target = trim(slice(&v, 2, v.len()).as_str());
            Command::ChangeDir(resolve_cd(self.cwd.as_slice(), target.as_str(), home))
        } else {
            Command::Run(text.clone())
        };
        Entry { history: Some(text), command }
    }

    /// Goes on after an attempt to change to `dir`: with the directory that the
    /// system reports, or `dir` if it reports none. If the attempt failed, the
    /// shell stays where it is, and gives a warning with the cause.
    pub fn changed(&mut self, dir: Vec<u8>, outcome: Result<Option<Vec<u8>>, String>) -> (warning:
        Option<String>)
        ensures
            match outcome {
                Ok(now) => {
                    &&& warning is None
                    &&& final(self).cwd == (match now {
                        Some(d) => d,
                        None => dir,
                    })
                },
                Err(cause) => {
                    &&& warning matches Some(w)
                    &&& w@ == "cd: "@ + lossy(dir@) + ": "@ + cause@
                    &&& final(self).cwd == old(self).cwd
                },
            },
    {
        match outcome {
            Ok(Some(now)) => {
                self.cwd = now;
                None
            },
            Ok(None) => {
                self.cwd = dir;
                None
            },
            Err(cause) => Some(
                String::from_str("cd: ").concat(display(dir.as_slice()).as_str()).concat(
                    ": ",
                ).concat(cause.as_str()),
            ),
        }
    }
}

/// The shell that runs commands: the one of the environment, or the default.
pub fn calling_shell(env_shell: Option<String>) -> (s: String)
    ensures
        s@ == (match env_shell {
            Some(s) => s@,
            None => DEFAULT_SHELL@,
        }),
{
    match env_shell {
        Some(s) => s,
        None => DEFAULT_SHELL.to_owned(),
    }
}

/// The path of the history file, if there is a home directory.
pub fn history_path(home: Option<&[u8]>) -> (p: Option<Vec<u8>>)
    ensures
        match (home, p) {
            (Some(h), Some(p)) => p@ == joined(h@, encode_utf8(HISTORY_FILE@)),
            (None, None) => true,
            _ => false,
        },
{
    match home {
        Some(h) => Some(join_path(h, HISTORY_FILE.as_bytes())),
        None => None,
    }
}

/// What came of an attempt to read a line.
#[derive(Debug)]
pub enum Input {
    /// The line editor refused the prompt.
    PromptRefused,
    /// The line editor read a line.
    Edited(String),
    /// A signal cancelled the line.
    Signal,
    /// The line editor met the end of the input.
    Eof,
    /// Standard input gave that many bytes, and this line.
    Plain { count: usize, line: String },
    /// Reading failed, with the cause.
    Failed(String),
}

/// A line that was read, or the end of the input, and an error to report.
#[derive(Debug)]
pub struct ReadLine {
    pub line: Option<String>,
    pub error: Option<String>,
}

impl Input {
    /// The line that was read; none at the end of the input. A cancelled line
    /// counts as an empty one, so that a fresh prompt is shown. A failure is
    /// reported, and ends the input.
    pub fn read(self) -> (r: ReadLine)
        ensures
            match self {
                Input::Edited(l) => r.line == Some(l),
                Input::Signal => r.line matches Some(l) && l@.len() == 0,
                Input::Plain { count, line } => r.line == (if count == 0 {
                    None
                } else {
                    Some(line)
                }),
                _ => r.line is None,
            },
            match self {
                Input::Failed(cause) => r.error matches Some(e) && e@ == "read error: "@ + cause@,
                _ => r.error is None,
            },
    {
        match self {
            Input::PromptRefused => ReadLine { line: None, error: None },
            Input::Edited(line) => ReadLine { line: Some(line), error: None },
            Input::Signal => ReadLine { line: Some(String::new()), error: None },
            Input::Eof => ReadLine { line: None, error: None },
            Input::Plain { count, line } => if count == 0 {
                ReadLine { line: None, error: None }
            } else {
                ReadLine { line: Some(line), error: None }
            },
            Input::Failed(cause) => ReadLine {
                line: None,
                error: Some(String::from_str("read error: ").concat(cause.as_str())),
            },
        }
    }
}

/// The log filter for a number of `-v` flags: they raise the level of this
/// program and keep noisy dependencies at `warn`.
pub fn log_filter(verbose: u8) -> (s: String)
    ensures
        s@ == "warn,aicg="@ + (if verbose == 0 {
            "info"@
        } else if verbose == 1 {
            "debug"@
        } else {
            "trace"@
        }),
{
    let level = match verbose {
        0 => "info",
        1 => "debug",
        _ => "trace",
    };
    String::from_str("warn,aicg=").concat(level)
}

/// The warning after an attempt to wipe the scratch directory, if it failed
/// for the given cause.
pub fn clear_scratch(outcome: Result<(), String>) -> (warning: Option<String>)
    ensures
        match outcome {
            Ok(_) => warning is None,
            Err(cause) => warning matches Some(w) && w@ == "could not reset "@
                + crate::tools::scratch::SCRATCH_DIR@ + ": "@ + cause@,
        },
{
    match outcome {
        Ok(_) => None,
        Err(cause) => Some(
            String::from_str("could not reset ").concat(crate::tools::scratch::SCRATCH_DIR).concat(
                ": ",
            ).concat(cause.as_str()),
        ),
    }
}

/// From an absolute directory, `cd` leads to an absolute directory.
pub proof fn law_cd_absolute(cwd: Seq<u8>, target: Seq<char>, home: Option<Seq<char>>)
    requires
        absolute(cwd),
    ensures
        absolute(cd_path(cwd, target, home)),
{
    let to = cd_path(cwd, target, home);
    if to[0] != cwd[0] {
        assert(absolute(to));
    }
}

/// With an absolute home directory, `cd ~/...` leads to a place in it: to the
/// components of home and then those that follow the `~/`, however many `/`
/// stand between them.
pub proof fn law_cd_home(cwd: Seq<u8>, target: Seq<char>, home: Option<Seq<char>>, h: Seq<char>)
    requires
        "~/"@.is_prefix_of(target),
        home == Some(h),
        absolute(encode_utf8(h)),
    ensures
        within(cd_path(cwd, target, home), encode_utf8(h)),
        components(cd_path(cwd, target, home)) == components(encode_utf8(h)) + segments(
            encode_utf8(target.skip("~/"@.len() as int)),
        ),
{
    reveal_strlit("~/");
    reveal_strlit("~");
    let rest = encode_utf8(target.skip("~/"@.len() as int));
    crate::paths::lemma_unrooted(rest);
    crate::paths::law_joined_within(encode_utf8(h), unrooted(rest));
    crate::paths::lemma_components_joined(encode_utf8(h), unrooted(rest));
}

/// White space around a line makes no difference.
pub proof fn law_white_space_ignored(
    line: Seq<char>,
    cwd: Seq<u8>,
    home: Option<Seq<char>>,
    c: Command,
)
    ensures
        means(trimmed(line), cwd, home, c) == means(trimmed(trimmed(line)), cwd, home, c),
{
    crate::text::law_trim_idempotent(line);
}

/// A line is forwarded to the calling shell verbatim, unless it is blank, one of
/// the shell's own words, a `cd`, or prefixed with `@`.
pub proof fn law_forwarded_verbatim(
    t: Seq<char>,
    cwd: Seq<u8>,
    home: Option<Seq<char>>,
    c: Command,
)
    requires
        means(t, cwd, home, c),
        t.len() > 0,
    ensures
        (c is Run) <==> !(t[0] == '@' || t == "exit"@ || t == "quit"@ || t == "/clear"@ || t
            == "cd"@ || "cd "@.is_prefix_of(t)),
        c matches Command::Run(r) ==> r@ == t,
        c is Ask ==> t[0] == '@',
{
    reveal_strlit("exit");
    reveal_strlit("quit");
    reveal_strlit("/clear");
}

/// The words `exit` and `quit`, and no other line, leave the shell; `/clear`,
/// and no other line, forgets the conversation.
pub proof fn law_own_words(t: Seq<char>, cwd: Seq<u8>, home: Option<Seq<char>>, c: Command)
    requires
        means(t, cwd, home, c),
    ensures
        c == Command::Quit <==> t == "exit"@ || t == "quit"@,
        c == Command::Clear <==> t == "/clear"@,
        t.len() == 0 ==> c == Command::Skip,
        c == Command::Skip ==> t.len() == 0 || t[0] == '@',
{
    reveal_strlit("exit");
    reveal_strlit("quit");
    reveal_strlit("/clear");
    if t == "/clear"@ {
        assert(t[0] == '/');
    }
}

/// A line that starts with `@` asks the model, unless only white space follows.
/// The question is all that follows, up to white space at its ends: nothing
/// else is left out, and nothing is changed.
pub proof fn law_whole_question_asked(
    t: Seq<char>,
    cwd: Seq<u8>,
    home: Option<Seq<char>>,
    c: Command,
)
    requires
        means(t, cwd, home, c),
        t.len() > 0,
        t[0] == '@',
    ensures
        c is Ask <==> exists|k: int| 1 <= k < t.len() && !white_space(#[trigger] t[k]),
        !(c is Ask) ==> c == Command::Skip,
        c matches Command::Ask(q) ==> exists|i: int, j: int|
            {
                &&& 1 <= i < j <= t.len()
                &&& q@ == #[trigger] t.subrange(i, j)
                &&& forall|k: int| 1 <= k < i ==> white_space(#[trigger] t[k])
                &&& forall|k: int| j <= k < t.len() ==> white_space(#[trigger] t[k])
                &&& !white_space(t[i])
                &&& !white_space(t[j - 1])
            },
        c matches Command::Ask(q) ==> (!white_space(t.last()) ==> exists|w: Seq<char>|
            t == #[trigger] (seq!['@'] + w + q@) && forall|k: int|
                0 <= k < w.len() ==> white_space(#[trigger] w[k])),
{
    reveal_strlit("exit");
    reveal_strlit("quit");
    reveal_strlit("/clear");
    assert("exit"@[0] == 'e' && "quit"@[0] == 'q' && "/clear"@[0] == '/');
    let rest = t.skip(1);
    let query = trimmed(rest);
    law_trim_cuts_white_space(rest);
    let (i, j) = choose|i: int, j: int| #[trigger] core_of(rest, query, i, j);
    if i < j {
        assert(query =~= t.subrange(i + 1, j + 1));
        assert forall|k: int| 1 <= k < i + 1 implies white_space(#[trigger] t[k]) by {
            assert(rest[k - 1] == t[k]);
        }
        assert forall|k: int| j + 1 <= k < t.len() implies white_space(#[trigger] t[k]) by {
            assert(rest[k - 1] == t[k]);
        }
        assert(!white_space(t[i + 1]) && !white_space(t[j]));
        if !white_space(t.last()) {
            assert(j == rest.len()) by {
                if j < rest.len() {
                    assert(rest[rest.len() - 1] == t.last());
                }
            }
            let w = t.subrange(1, i + 1);
            assert(t =~= seq!['@'] + w + query);
            assert forall|k: int| 0 <= k < w.len() implies white_space(#[trigger] w[k]) by {
                assert(w[k] == rest[k]);
            }
        }
    } else {
        assert forall|k: int| 1 <= k < t.len() implies white_space(#[trigger] t[k]) by {
            assert(rest[k - 1] == t[k]);
        }
    }
}

/// The word `cd`, alone or with a space behind it, changes the directory. The
/// target is all that follows, up to white space at its ends.
pub proof fn law_cd_target(t: Seq<char>, cwd: Seq<u8>, home: Option<Seq<char>>, c: Command)
    requires
        means(t, cwd, home, c),
    ensures
        c is ChangeDir <==> t == seq!['c', 'd'] || (t.len() > 2 && t[0] == 'c' && t[1] == 'd' && t[2]
            == ' '),
        c matches Command::ChangeDir(d) ==> exists|i: int, j: int|
            {
                &&& 2 <= i <= j <= t.len()
                &&& d@ == cd_path(cwd, #[trigger] t.subrange(i, j), home)
                &&& forall|k: int| 2 <= k < i ==> white_space(#[trigger] t[k])
                &&& forall|k: int| j <= k < t.len() ==> white_space(#[trigger] t[k])
                &&& i < j ==> !white_space(t[i]) && !white_space(t[j - 1])
            },
{
    reveal_strlit("exit");
    reveal_strlit("quit");
    reveal_strlit("/clear");
    reveal_strlit("cd");
    reveal_strlit("cd ");
    assert("exit"@[0] == 'e' && "quit"@[0] == 'q' && "/clear"@[0] == '/');
    assert("cd"@ =~= seq!['c', 'd']);
    let spaced = t.len() > 2 && t[0] == 'c' && t[1] == 'd' && t[2] == ' ';
    assert("cd "@.is_prefix_of(t) <==> spaced) by {
        if spaced {
            assert("cd "@ =~= t.subrange(0, 3));
        }
        if "cd "@.is_prefix_of(t) {
            assert(t.subrange(0, 3)[0] == 'c' && t.subrange(0, 3)[1] == 'd' && t.subrange(0, 3)[2]
                == ' ');
        }
    }
    if t == seq!['c', 'd'] || spaced {
        assert(t[0] == 'c');
        let rest = t.skip(2);
        law_trim_cuts_white_space(rest);
        let (i, j) = choose|i: int, j: int| #[trigger] core_of(rest, trimmed(rest), i, j);
        assert(trimmed(rest) =~= t.subrange(i + 2, j + 2));
        assert forall|k: int| 2 <= k < i + 2 implies white_space(#[trigger] t[k]) by {
            assert(rest[k - 2] == t[k]);
        }
        assert forall|k: int| j + 2 <= k < t.len() implies white_space(#[trigger] t[k]) by {
            assert(rest[k - 2] == t[k]);
        }
        assert(i < j ==> rest[i] == t[i + 2] && rest[j - 1] == t[j + 1]);
    }
}

/// A target that starts with `/` is where `cd` leads, whatever the current
/// directory and home are.
pub proof fn law_cd_absolute_target(cwd: Seq<u8>, target: Seq<char>, home: Option<Seq<char>>)
    requires
        target.len() > 0,
        target[0] == '/',
    ensures
        cd_path(cwd, target, home) == encode_utf8(target),
{
    reveal_strlit("~");
    reveal_strlit("~/");
    assert("~"@[0] == '~');
    if "~/"@.is_prefix_of(target) {
        assert(target.subrange(0, 2)[0] == "~/"@[0]);
    }
    crate::paths::lemma_slash_text(target);
}

/// A relative target that does not speak of home is followed from the current
/// directory: every component of the target, `..` among them, follows those of
/// the directory, and the target stands at the end as it was written.
pub proof fn law_cd_relative(cwd: Seq<u8>, target: Seq<char>, home: Option<Seq<char>>)
    requires
        target.len() > 0,
        target[0] != '/',
        target != "~"@,
        !"~/"@.is_prefix_of(target),
    ensures
        absolute(cwd) ==> components(cd_path(cwd, target, home)) == components(cwd) + segments(
            encode_utf8(target),
        ),
        cwd.is_prefix_of(cd_path(cwd, target, home)),
        encode_utf8(target).is_suffix_of(cd_path(cwd, target, home)),
        cd_path(cwd, target, home).len() <= cwd.len() + 1 + encode_utf8(target).len(),
{
    let p = encode_utf8(target);
    crate::tools::scratch::lemma_absolute_text(target);
    crate::paths::law_joined_bytes(cwd, p);
    if absolute(cwd) {
        crate::paths::lemma_components_joined(cwd, p);
    }
}

/// Without a target, or with `~`, `cd` leads home: to an absolute home as it is
/// written, and to a relative one below the current directory. Without a home,
/// it leads to an absolute current directory itself.
pub proof fn law_cd_to_home(cwd: Seq<u8>, target: Seq<char>, home: Option<Seq<char>>)
    requires
        target.len() == 0 || target == seq!['~'],
        absolute(cwd),
    ensures
        home matches Some(h) ==> (absolute(encode_utf8(h)) ==> cd_path(cwd, target, home)
            == encode_utf8(h)),
        home matches Some(h) ==> (!absolute(encode_utf8(h)) ==> components(
            cd_path(cwd, target, home),
        ) == components(cwd) + segments(encode_utf8(h))),
        home is None ==> cd_path(cwd, target, home) == cwd,
{
    reveal_strlit("~");
    assert("~"@ =~= seq!['~']);
    if let Some(h) = home {
        if !absolute(encode_utf8(h)) {
            crate::paths::lemma_components_joined(cwd, encode_utf8(h));
        }
    }
}

/// Below a home that is relative itself, `cd ~/...` leads to a place below the
/// current directory. Without a home, the `~` is a name like any other.
pub proof fn law_cd_below_other_home(
    cwd: Seq<u8>,
    target: Seq<char>,
    home: Option<Seq<char>>,
)
    requires
        "~/"@.is_prefix_of(target),
        absolute(cwd),
    ensures
        home matches Some(h) ==> (!absolute(encode_utf8(h)) ==> components(
            cd_path(cwd, target, home),
        ) == components(cwd) + segments(encode_utf8(h)) + segments(encode_utf8(target.skip(2)))),
        home is None ==> components(cd_path(cwd, target, home)) == components(cwd) + segments(
            encode_utf8(target),
        ),
{
    reveal_strlit("~/");
    reveal_strlit("~");
    assert(target.subrange(0, 2)[0] == '~');
    crate::tools::scratch::lemma_absolute_text(target);
    match home {
        Some(h) => {
            let base = encode_utf8(h);
            let rest = unrooted(encode_utf8(target.skip(2)));
            if !absolute(base) {
                crate::paths::lemma_unrooted(encode_utf8(target.skip(2)));
                crate::paths::lemma_segments_joined(base, rest);
                let to = joined(base, rest);
                assert(!absolute(to)) by {
                    if base.len() > 0 {
                        assert(to[0] == base[0]);
                    } else {
                        assert(to =~= rest);
                    }
                }
                crate::paths::lemma_components_joined(cwd, to);
                assert(components(cwd) + (segments(base) + segments(rest)) =~= components(cwd)
                    + segments(base) + segments(rest));
            }
        },
        None => {
            crate::paths::lemma_components_joined(cwd, encode_utf8(target));
        },
    }
}

/// The shell understands a line without the white space around it, and adds to
/// the history every line that is not blank, in full.
pub proof fn law_line_interpreted(shell: Shell, line: &str, home: Option<&str>, e: Entry)
    requires
        call_ensures(Shell::interpret, (&shell, line, home), e),
    ensures
        means(
            trimmed(line@),
            shell.cwd@,
            match home {
                Some(h) => Some(h@),
                None => None,
            },
            e.command,
        ),
        trimmed(line@).len() == 0 ==> e.history is None,
        trimmed(line@).len() > 0 ==> (e.history matches Some(h) && h@ == trimmed(line@)),
{
}

/// A question that the shell passes on is the whole of the line behind the `@`,
/// up to white space: no character of it is lost or changed.
pub proof fn law_question_passed_on(shell: Shell, line: &str, home: Option<&str>, e: Entry)
    requires
        call_ensures(Shell::interpret, (&shell, line, home), e),
        trimmed(line@).len() > 0,
        trimmed(line@)[0] == '@',
    ensures
        e.command is Ask <==> exists|k: int|
            1 <= k < trimmed(line@).len() && !white_space(#[trigger] trimmed(line@)[k]),
        e.command matches Command::Ask(q) ==> exists|w: Seq<char>|
            trimmed(line@) == #[trigger] (seq!['@'] + w + q@) && (forall|k: int|
                0 <= k < w.len() ==> white_space(#[trigger] w[k])) && q@.len() > 0 && !white_space(
                q@[0],
            ),
{
    let t = trimmed(line@);
    crate::text::law_trim_idempotent(line@);
    law_whole_question_asked(t, shell.cwd@, text_of(home), e.command);
    if let Command::Ask(q) = e.command {
        let (i, j) = choose|i: int, j: int|
            {
                &&& 1 <= i < j <= t.len()
                &&& q@ == #[trigger] t.subrange(i, j)
                &&& forall|k: int| 1 <= k < i ==> white_space(#[trigger] t[k])
                &&& forall|k: int| j <= k < t.len() ==> white_space(#[trigger] t[k])
                &&& !white_space(t[i])
                &&& !white_space(t[j - 1])
            };
        assert(q@[0] == t[i]);
    }
}

/// From an absolute directory, `cd` to a relative target that does not speak of
/// home leads to the components of the directory and then those of the target,
/// `..` among them; `cd` to an absolute target leads there.
pub proof fn law_directory_resolved(cwd: &[u8], target: &str, home: Option<&str>, dir: Vec<u8>)
    requires
        call_ensures(resolve_cd, (cwd, target, home), dir),
    ensures
        absolute(cwd@) && target@.len() > 0 && target@[0] != '/' && target@ != "~"@
            && !"~/"@.is_prefix_of(target@) ==> components(dir@) == components(cwd@) + segments(
            encode_utf8(target@),
        ),
        target@.len() > 0 && target@[0] == '/' ==> dir@ == encode_utf8(target@),
        home matches Some(h) ==> (absolute(encode_utf8(h@)) && "~/"@.is_prefix_of(target@)
            ==> components(dir@) == components(encode_utf8(h@)) + segments(
            encode_utf8(target@.skip(2)),
        )),
        home matches Some(h) ==> (absolute(encode_utf8(h@)) && absolute(cwd@) && (target@.len()
            == 0 || target@ == seq!['~']) ==> dir@ == encode_utf8(h@)),
{
    reveal_strlit("~/");
    let at = text_of(home);
    if target@.len() > 0 && target@[0] == '/' {
        law_cd_absolute_target(cwd@, target@, at);
    } else if target@.len() > 0 && target@ != "~"@ && !"~/"@.is_prefix_of(target@) {
        law_cd_relative(cwd@, target@, at);
    }
    if let Some(h) = home {
        if absolute(encode_utf8(h@)) && "~/"@.is_prefix_of(target@) {
            law_cd_home(cwd@, target@, at, h@);
        }
        if absolute(cwd@) && (target@.len() == 0 || target@ == seq!['~']) {
            law_cd_to_home(cwd@, target@, at);
        }
    }
}

/// The prompt shows the current directory, whole.
pub proof fn law_prompt_shows_directory(shell: Shell, s: String)
    requires
        call_ensures(Shell::prompt, (&shell,), s),
    ensures
        lossy(shell.cwd@).is_prefix_of(s@),
        s@.skip(lossy(shell.cwd@).len() as int) == " ❯ "@,
{
    let d = lossy(shell.cwd@);
    assert(d =~= s@.subrange(0, d.len() as int));
    assert(s@.skip(d.len() as int) =~= " ❯ "@);
}

/// A line that was read is passed on as it is. A cancelled line is an empty
/// line, not the end of the input; only the end of the input and a failure end
/// it, and only a failure is reported, with its cause.
pub proof fn law_input_passed_on(input: Input, r: ReadLine)
    requires
        call_ensures(Input::read, (input,), r),
    ensures
        input matches Input::Edited(l) ==> (r.line matches Some(x) && x@ == l@) && r.error is None,
        input == Input::Signal ==> (r.line matches Some(x) && x@.len() == 0) && r.error is None,
        input matches Input::Plain { count, line } ==> (count > 0 ==> (r.line matches Some(x) && x@
            == line@)) && (count == 0 ==> r.line is None) && r.error is None,
        input == Input::Eof || input == Input::PromptRefused ==> r.line is None && r.error is None,
        input matches Input::Failed(cause) ==> r.line is None && (r.error matches Some(e)
            && cause@.is_suffix_of(e@)),
{
    if let Input::Failed(cause) = input {
        let e = r.error->0@;
        assert(cause@ =~= e.subrange(e.len() - cause@.len(), e.len() as int));
    }
}

/// The shell of the environment is used if there is one, and otherwise the
/// default; the history lies in the home directory if there is one.
pub proof fn law_environment_used(
    env_shell: Option<String>,
    s: String,
    home: Option<&[u8]>,
    p: Option<Vec<u8>>,
)
    requires
        call_ensures(calling_shell, (env_shell,), s),
        call_ensures(history_path, (home,), p),
    ensures
        env_shell matches Some(e) ==> s@ == e@,
        env_shell is None ==> s@ == "/bin/sh"@,
        home is None <==> p is None,
        home matches Some(h) ==> (p matches Some(q) && (absolute(h@) ==> components(q@)
            == components(h@) + seq![encode_utf8(".aicg_history"@)])),
{
    if let Some(h) = home {
        reveal_strlit(".aicg_history");
        let name = encode_utf8(".aicg_history"@);
        vstd::utf8::is_ascii_chars_encode_utf8(".aicg_history"@);
        assert(name.len() == 13 && name[0] == 46);
        assert(!name.contains(47u8)) by {
            if name.contains(47u8) {
                let k = choose|k: int| 0 <= k < name.len() && name[k] == 47;
                assert(".aicg_history"@[k] as u8 == 47);
            }
        }
        if absolute(h@) {
            crate::paths::lemma_components_joined(h@, name);
            crate::paths::law_segments_of_pieces(name, name, name);
        }
    }
}

} // verus!
