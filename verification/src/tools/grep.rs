//! A tool that runs `grep` over files within the current working directory.
//!
//! `grep` cannot itself modify files, but to keep the tool read-only it (a)
//! never goes through a shell, (b) confines the searched path to the working
//! directory, and (c) rejects any flag that is not on an allow-list of known
//! read-only options.

use super::{
    contain, io_error_text, preview, previewed, Action, Contained, Containing, Containment,
    Parameter, ParameterKind, PathError, Reply, ToolDefinition,
};
use crate::paths::{bytes, bytes_of, display, law_text_shown, lossy, lossy_text, within};
use crate::text::{
    chars_of, lemma_position, lemma_position_is, lines, position, same, split_lines, strip_prefix,
    texts,
};
use vstd::prelude::*;
use vstd::string::*;
use vstd::utf8::encode_utf8;

verus! {

/// The name under which a model calls [`Grep`].
pub const NAME: &'static str = "grep";

/// What a model is told about [`Grep`].
pub const DESCRIPTION: &'static str =
    "Search file contents with grep, within the current working directory. Read-only: only safe grep flags are accepted (e.g. -i, -n, -r, -l, -c, -A/-B/-C N, --include=GLOB); file-writing or non-grep usage is rejected. Pass `path` to scope the search (a file or directory, default '.'; use -r in `flags` to recurse into a directory). Full output is written to a scratch file you can read with read_file.";

/// How many output lines to echo back inline.
pub const PREVIEW_LINES: usize = 40;

/// Read-only grep flags that take no value.
pub const ALLOWED_FLAGS: [&'static str; 38] = [
    "-i",
    "--ignore-case",
    "-n",
    "--line-number",
    "-r",
    "-R",
    "--recursive",
    "-l",
    "--files-with-matches",
    "-L",
    "--files-without-match",
    "-c",
    "--count",
    "-v",
    "--invert-match",
    "-w",
    "--word-regexp",
    "-x",
    "--line-regexp",
    "-E",
    "--extended-regexp",
    "-F",
    "--fixed-strings",
    "-G",
    "--basic-regexp",
    "-P",
    "--perl-regexp",
    "-o",
    "--only-matching",
    "-H",
    "--with-filename",
    "-h",
    "--no-filename",
    "-s",
    "--no-messages",
    "-a",
    "--text",
    "-I",
];

/// Read-only grep flags that take a value. Accepted as `-A3`, `-A=3`,
/// `--after-context=3`, or split across two tokens (`-A`, `3`). The value half,
/// when separate, must be a plain non-flag token: a number. `--color` takes a
/// value only after `=`, and may stand alone.
pub const ALLOWED_VALUE_FLAGS: [&'static str; 12] = [
    "-A",
    "--after-context",
    "-B",
    "--before-context",
    "-C",
    "--context",
    "-m",
    "--max-count",
    "--include",
    "--exclude",
    "--exclude-dir",
    "--color",
];

/// Whether `f` is a flag that takes no value.
pub open spec fn plain_flag(f: Seq<char>) -> bool {
    exists|i: int| 0 <= i < ALLOWED_FLAGS@.len() && #[trigger] ALLOWED_FLAGS@[i]@ == f
}

/// Whether `f` is the flag `vf`, alone or with a value attached: after `=`, or
/// for a short flag also directly.
pub open spec fn flag_with_value(f: Seq<char>, vf: Seq<char>) -> bool {
    ||| f == vf
    ||| {
        &&& vf.is_prefix_of(f)
        &&& f.len() > vf.len()
        &&& f[vf.len() as int] == '=' || !"--"@.is_prefix_of(vf)
    }
}

/// Whether `f` is a flag that takes a value, with or without it.
pub open spec fn value_flag(f: Seq<char>) -> bool {
    exists|i: int|
        0 <= i < ALLOWED_VALUE_FLAGS@.len() && flag_with_value(
            f,
            #[trigger] ALLOWED_VALUE_FLAGS@[i]@,
        )
}

/// Whether `f` is a flag without its value, which `grep` then takes from the
/// next token.
pub open spec fn split_flag(f: Seq<char>) -> bool {
    &&& f != "--color"@
    &&& exists|i: int|
        0 <= i < ALLOWED_VALUE_FLAGS@.len() && #[trigger] ALLOWED_VALUE_FLAGS@[i]@ == f
}

/// Whether `f` is a plain number, which can be the value of the flag before it.
pub open spec fn number(f: Seq<char>) -> bool {
    f.len() > 0 && forall|i: int| 0 <= i < f.len() ==> '0' <= #[trigger] f[i] <= '9'
}

/// Whether a token is accepted among the flags.
pub open spec fn allowed_flag(f: Seq<char>) -> bool {
    plain_flag(f) || value_flag(f) || number(f)
}

/// Whether a token is a plain number.
fn is_number(flag: &str) -> (r: bool)
    ensures
        r == number(flag@),
{
    let digits = chars_of(flag);
    if digits.len() == 0 {
        return false;
    }
    let mut i: usize = 0;
    while i < digits.len()
        invariant
            digits@ == flag@,
            i <= digits@.len(),
            forall|j: int| 0 <= j < i ==> '0' <= #[trigger] digits@[j] <= '9',
        decreases digits@.len() - i,
    {
        if digits[i] < '0' || digits[i] > '9' {
            return false;
        }
        i += 1;
    }
    true
}

/// Whether a token is accepted among the flags.
pub fn is_allowed_flag(flag: &str) -> (r: bool)
    ensures
        r == allowed_flag(flag@),
{
    let mut i: usize = 0;
    while i < ALLOWED_FLAGS.len()
        invariant
            i <= ALLOWED_FLAGS@.len(),
            forall|j: int| 0 <= j < i ==> ALLOWED_FLAGS@[j]@ != flag@,
        decreases ALLOWED_FLAGS@.len() - i,
    {
        if same(ALLOWED_FLAGS[i], flag) {
            return true;
        }
        i += 1;
    }
    let mut i: usize = 0;
    while i < ALLOWED_VALUE_FLAGS.len()
        invariant
            i <= ALLOWED_VALUE_FLAGS@.len(),
            forall|j: int|
                0 <= j < i ==> !flag_with_value(flag@, #[trigger] ALLOWED_VALUE_FLAGS@[j]@),
        decreases ALLOWED_VALUE_FLAGS@.len() - i,
    {
        let vf = ALLOWED_VALUE_FLAGS[i];
        if same(flag, vf) {
            return true;
        }
        if let Some(rest) = strip_prefix(flag, vf) {
            let value = chars_of(rest.as_str());
            if value.len() > 0 && (value[0] == '=' || strip_prefix(vf, "--").is_none()) {
                assert(flag@[vf@.len() as int] == value@[0]);
                return true;
            }
            proof {
                if flag@.len() > vf@.len() {
                    assert(flag@[vf@.len() as int] == value@[0]);
                } else {
                    assert(flag@ =~= vf@);
                }
            }
        }
        i += 1;
    }
    is_number(flag)
}

/// Whether a token is a flag without its value.
fn is_split_flag(flag: &str) -> (r: bool)
    ensures
        r == split_flag(flag@),
{
    if same(flag, "--color") {
        return false;
    }
    let mut i: usize = 0;
    while i < ALLOWED_VALUE_FLAGS.len()
        invariant
            flag@ != "--color"@,
            i <= ALLOWED_VALUE_FLAGS@.len(),
            forall|j: int| 0 <= j < i ==> ALLOWED_VALUE_FLAGS@[j]@ != flag@,
        decreases ALLOWED_VALUE_FLAGS@.len() - i,
    {
        if same(ALLOWED_VALUE_FLAGS[i], flag) {
            return true;
        }
        i += 1;
    }
    false
}

/// Arguments accepted by [`Grep`].
#[derive(Debug)]
pub struct GrepArgs {
    /// Pattern (regular expression) to search for.
    pub pattern: String,
    /// File or directory within the working directory to search. Defaults to
    /// ".".
    pub path: Option<String>,
    /// Extra grep flags. Only read-only flags are permitted; anything else is
    /// rejected. Use the `=` form for glob-valued flags, e.g. `--include=*.rs`.
    pub flags: Vec<String>,
}

/// What [`Grep`] returns to the model.
#[derive(Debug)]
pub struct GrepOutput {
    /// Number of output lines grep produced.
    pub lines: usize,
    /// grep's exit code (0 = matches, 1 = no matches, 2 = error).
    pub exit_code: i32,
    /// Scratch file holding the full output, or `None` if there was none.
    pub scratch_file: Option<String>,
    /// The first lines of output (or grep's stderr if it failed, or printed
    /// nothing).
    pub preview: String,
}

/// Errors that [`Grep`] can produce.
#[derive(Debug)]
pub enum GrepError {
    Cwd(std::io::Error),
    OutsideCwd(String),
    Resolve { path: String, source: std::io::Error },
    DisallowedFlag(String),
    Spawn(std::io::Error),
    Scratch(std::io::Error),
}

impl GrepError {
    /// The message for this error, with the words of its cause.
    pub open spec fn text(self, cause: Seq<char>) -> Seq<char> {
        match self {
            GrepError::Cwd(_) => "could not determine the current working directory: "@ + cause,
            GrepError::OutsideCwd(p) => "'"@ + p@ + "' is outside the current working directory"@,
            GrepError::Resolve { path, source: _ } => "could not resolve '"@ + path@ + "': "@
                + cause,
            GrepError::DisallowedFlag(f) => "flag '"@ + f@
                + "' is not allowed; grep is restricted to read-only options"@,
            GrepError::Spawn(_) => "failed to run grep: "@ + cause,
            GrepError::Scratch(_) => "could not write scratch file: "@ + cause,
        }
    }

    /// The message for this error, given the words of its cause.
    pub fn message_with(&self, cause: &str) -> (s: String)
        ensures
            s@ == self.text(cause@),
    {
        match self {
            GrepError::Cwd(_) => String::from_str(
                "could not determine the current working directory: ",
            ).concat(cause),
            GrepError::OutsideCwd(p) => String::from_str("'").concat(p.as_str()).concat(
                "' is outside the current working directory",
            ),
            GrepError::Resolve { path, source: _ } => String::from_str("could not resolve '").concat(
                path.as_str(),
            ).concat("': ").concat(cause),
            GrepError::DisallowedFlag(f) => String::from_str("flag '").concat(f.as_str()).concat(
                "' is not allowed; grep is restricted to read-only options",
            ),
            GrepError::Spawn(_) => String::from_str("failed to run grep: ").concat(cause),
            GrepError::Scratch(_) => String::from_str("could not write scratch file: ").concat(
                cause,
            ),
        }
    }

    /// The message for this error.
    pub fn message(&self) -> (s: String)
        ensures
            exists|cause: Seq<char>| s@ == #[trigger] self.text(cause),
    {
        let cause = match self {
            GrepError::Cwd(e) => io_error_text(e),
            GrepError::Resolve { path: _, source } => io_error_text(source),
            GrepError::Spawn(e) => io_error_text(e),
            GrepError::Scratch(e) => io_error_text(e),
            _ => String::new(),
        };
        self.message_with(cause.as_str())
    }
}

impl From<PathError> for GrepError {
    fn from(e: PathError) -> (r: Self) {
        match e {
            PathError::Cwd(io) => GrepError::Cwd(io),
            PathError::OutsideCwd(p) => GrepError::OutsideCwd(p),
            PathError::Resolve { path, source } => GrepError::Resolve { path, source },
        }
    }
}

impl vstd::std_specs::convert::FromSpecImpl<PathError> for GrepError {
    open spec fn obeys_from_spec() -> bool {
        true
    }

    open spec fn from_spec(e: PathError) -> Self {
        match e {
            PathError::Cwd(io) => GrepError::Cwd(io),
            PathError::OutsideCwd(p) => GrepError::OutsideCwd(p),
            PathError::Resolve { path, source } => GrepError::Resolve { path, source },
        }
    }
}

/// Whether each of the flags is accepted by itself.
pub open spec fn all_allowed(flags: Seq<String>) -> bool {
    forall|i: int| 0 <= i < flags.len() ==> allowed_flag(#[trigger] flags[i]@)
}

/// Whether `f` is the first of the flags that is not accepted by itself.
pub open spec fn first_disallowed(flags: Seq<String>, f: String) -> bool {
    exists|i: int|
        0 <= i < flags.len() && #[trigger] flags[i] == f && !allowed_flag(f@) && all_allowed(
            flags.take(i),
        )
}

/// Whether the flag at `i`, if its value is split off, is followed by a number.
pub open spec fn has_value(flags: Seq<String>, i: int) -> bool {
    split_flag(flags[i]@) ==> i + 1 < flags.len() && number(flags[i + 1]@)
}

/// Whether every flag whose value is split off is followed by a number.
pub open spec fn all_have_values(flags: Seq<String>) -> bool {
    forall|i: int| 0 <= i < flags.len() ==> #[trigger] has_value(flags, i)
}

/// Whether `f` is the first of the flags whose value is split off and that is
/// not followed by a number.
pub open spec fn first_without_value(flags: Seq<String>, f: String) -> bool {
    exists|i: int|
        0 <= i < flags.len() && flags[i] == f && !(#[trigger] has_value(flags, i)) && forall|j: int|
            0 <= j < i ==> #[trigger] has_value(flags, j)
}

/// Whether the flags are accepted: each by itself, and where a value is split
/// off, with a number for it.
pub open spec fn accepted(flags: Seq<String>) -> bool {
    all_allowed(flags) && all_have_values(flags)
}

/// Whether `f` is the flag for which the flags are refused: the first that is
/// not accepted by itself, or, if there is none, the first that lacks its
/// value.
pub open spec fn refused(flags: Seq<String>, f: String) -> bool {
    if all_allowed(flags) {
        first_without_value(flags, f)
    } else {
        first_disallowed(flags, f)
    }
}

/// Rejects any flag that isn't a known read-only grep option, and any whose
/// value is split off unless a number follows.
pub fn validate_flags(flags: &[String]) -> (r: Result<(), GrepError>)
    ensures
        match r {
            Ok(_) => accepted(flags@),
            Err(e) => !accepted(flags@) && (e matches GrepError::DisallowedFlag(f) && refused(
                flags@,
                f,
            )),
        },
{
    let mut i: usize = 0;
    while i < flags.len()
        invariant
            i <= flags@.len(),
            forall|j: int| 0 <= j < i ==> allowed_flag(#[trigger] flags@[j]@),
        decreases flags@.len() - i,
    {
        if !is_allowed_flag(flags[i].as_str()) {
            let f = flags[i].clone();
            assert(flags@[i as int] == f);
            assert(all_allowed(flags@.take(i as int)));
            return Err(GrepError::DisallowedFlag(f));
        }
        i += 1;
    }
    let mut i: usize = 0;
    while i < flags.len()
        invariant
            i <= flags@.len(),
            all_allowed(flags@),
            forall|j: int| 0 <= j < i ==> #[trigger] has_value(flags@, j),
        decreases flags@.len() - i,
    {
        let paired = i + 1 < flags.len() && is_number(flags[i + 1].as_str());
        if !paired && is_split_flag(flags[i].as_str()) {
            let f = flags[i].clone();
            assert(!has_value(flags@, i as int));
            return Err(GrepError::DisallowedFlag(f));
        }
        assert(has_value(flags@, i as int));
        i += 1;
    }
    Ok(())
}

/// The arguments with which `grep` is run. Behind accepted flags, `-e` keeps a
/// pattern that starts with `-` from being read as a flag, and `--` ends the
/// options so that the path is never read as one.
pub open spec fn arguments(
    flags: Seq<Seq<char>>,
    pattern: Seq<char>,
    path: Seq<u8>,
) -> Seq<Seq<u8>> {
    flags.map_values(|f: Seq<char>| encode_utf8(f)) + seq![
        encode_utf8("-e"@),
        encode_utf8(pattern),
        encode_utf8("--"@),
        path,
    ]
}

/// The arguments with which `grep` is run.
fn build_arguments(flags: &Vec<String>, pattern: &str, path: Vec<u8>) -> (args: Vec<Vec<u8>>)
    ensures
        bytes_of(args@) == arguments(texts(flags@), pattern@, path@),
        args@.len() > 0,
        args@.last()@ == path@,
{
    let ghost encoded = texts(flags@).map_values(|f: Seq<char>| encode_utf8(f));
    let mut args: Vec<Vec<u8>> = Vec::new();
    let mut i: usize = 0;
    while i < flags.len()
        invariant
            i <= flags@.len(),
            encoded == texts(flags@).map_values(|f: Seq<char>| encode_utf8(f)),
            bytes_of(args@) == encoded.take(i as int),
        decreases flags@.len() - i,
    {
        let ghost done = bytes_of(args@);
        args.push(bytes(flags[i].as_str()));
        assert(bytes_of(args@) =~= done.push(encoded[i as int]));
        assert(encoded.take(i + 1) =~= done.push(encoded[i as int]));
        i += 1;
    }
    let ghost done = bytes_of(args@);
    assert(done =~= encoded);
    args.push(bytes("-e"));
    args.push(bytes(pattern));
    args.push(bytes("--"));
    args.push(path);
    assert(bytes_of(args@) =~= arguments(texts(flags@), pattern@, path@));
    args
}

/// The exit code of a finished `grep`; -1 if a signal ended it.
pub open spec fn exit_code_of(report: super::GrepReport) -> i32 {
    match report.code {
        Some(c) => c,
        None => -1i32,
    }
}

/// Whether a finished `grep` failed: it neither found matches nor found that
/// there are none.
pub open spec fn failed(report: super::GrepReport) -> bool {
    exit_code_of(report) != 0 && exit_code_of(report) != 1
}

/// What is echoed back inline of a finished `grep`: its error text, if it
/// printed nothing else or failed with one; otherwise its first lines.
pub open spec fn shown(report: super::GrepReport) -> Seq<char> {
    if report.stdout@.len() == 0 || (failed(report) && report.stderr@.len() > 0) {
        lossy(report.stderr@)
    } else {
        previewed(lossy(report.stdout@), PREVIEW_LINES as nat)
    }
}

/// Runs read-only grep within the current working directory.
#[derive(Debug, Clone, Copy, Default)]
pub struct Grep;

/// A call of [`Grep`] that waits for a reply.
#[derive(Debug)]
pub enum GrepRun {
    Locating { at: Containment, pattern: String, flags: Vec<String> },
    Running { target: Contained, pattern: String, flags: Vec<String> },
    Spooling { lines: usize, exit_code: i32, stdout: String, preview: String },
}

/// Where a call of [`Grep`] stands.
#[derive(Debug)]
pub enum GrepStep {
    Continue(GrepRun),
    Done(Result<GrepOutput, GrepError>),
}

impl Grep {
    /// What a model is told about this tool.
    pub fn definition(&self) -> (d: ToolDefinition)
        ensures
            d.name@ == NAME@,
            d.description@ == DESCRIPTION@,
            d.parameters@.len() == 3,
            d.parameters@[0].is(
                "pattern"@,
                ParameterKind::Text,
                "Regular expression to search for."@,
            ),
            d.parameters@[1].is(
                "path"@,
                ParameterKind::Text,
                "File or directory within the CWD to search. Defaults to '.'."@,
            ),
            d.parameters@[2].is(
                "flags"@,
                ParameterKind::TextList,
                "Optional read-only grep flags, e.g. [\"-r\", \"-n\", \"-i\"]."@,
            ),
            texts(d.required@) == seq!["pattern"@],
    {
        let mut parameters: Vec<Parameter> = Vec::new();
        parameters.push(
            Parameter::new("pattern", ParameterKind::Text, "Regular expression to search for."),
        );
        parameters.push(
            Parameter::new(
                "path",
                ParameterKind::Text,
                "File or directory within the CWD to search. Defaults to '.'.",
            ),
        );
        parameters.push(
            Parameter::new(
                "flags",
                ParameterKind::TextList,
                "Optional read-only grep flags, e.g. [\"-r\", \"-n\", \"-i\"].",
            ),
        );
        let mut required: Vec<String> = Vec::new();
        required.push("pattern".to_owned());
        assert(texts(required@) =~= seq!["pattern"@]);
        ToolDefinition {
            name: NAME.to_owned(),
            description: DESCRIPTION.to_owned(),
            parameters,
            required,
        }
    }

    /// Starts to search as `args` says, unless the flags are not accepted.
    pub fn call(&self, args: GrepArgs) -> (step: GrepStep)
        ensures
            if accepted(args.flags@) {
                &&& step matches GrepStep::Continue(
                    GrepRun::Locating { at: Containment::Base { requested }, pattern, flags },
                )
                &&& requested@ == (match args.path {
                    Some(p) => p@,
                    None => "."@,
                })
                &&& pattern == args.pattern
                &&& flags == args.flags
            } else {
                step matches GrepStep::Done(Err(GrepError::DisallowedFlag(f)))
                    && refused(args.flags@, f)
            },
    {
        match validate_flags(args.flags.as_slice()) {
            Err(e) => GrepStep::Done(Err(e)),
            Ok(_) => {
                let at = match &args.path {
                    Some(p) => contain(p.as_str()),
                    None => contain("."),
                };
                GrepStep::Continue(
                    GrepRun::Locating { at, pattern: args.pattern, flags: args.flags },
                )
            },
        }
    }
}

impl GrepRun {
    /// The working directory, once it is known and still needed.
    pub open spec fn root(self) -> Option<Seq<u8>> {
        match self {
            GrepRun::Locating { at, .. } => at.root(),
            GrepRun::Running { target, .. } => Some(target.root()),
            GrepRun::Spooling { .. } => None,
        }
    }

    /// What the run waits for.
    pub open spec fn asks(self, a: Action) -> bool {
        match self {
            GrepRun::Locating { at, .. } => at.asks(a),
            GrepRun::Running { target, pattern, flags } => a matches Action::Grep(args) && bytes_of(
                args@,
            ) == arguments(texts(flags@), pattern@, target.place()),
            GrepRun::Spooling { stdout, .. } => {
                &&& a matches Action::Spool { prefix, extension, contents }
                &&& prefix@ == "grep"@
                &&& extension@ == "txt"@
                &&& contents@ == stdout@
            },
        }
    }

    /// The outcome of a finished `grep`: its output is spooled if and only if
    /// it printed anything, in which case the text of it is not empty either.
    pub open spec fn reported(report: super::GrepReport, step: GrepStep) -> bool {
        let out = lossy(report.stdout@);
        if report.stdout@.len() == 0 {
            &&& step matches GrepStep::Done(Ok(o))
            &&& o.lines == 0
            &&& o.exit_code == exit_code_of(report)
            &&& o.scratch_file is None
            &&& o.preview@ == shown(report)
        } else {
            &&& step matches GrepStep::Continue(
                GrepRun::Spooling { lines: n, exit_code, stdout, preview },
            )
            &&& n == lines(out).len()
            &&& exit_code == exit_code_of(report)
            &&& stdout@ == out
            &&& out.len() > 0
            &&& preview@ == shown(report)
        }
    }

    /// The outcome of a reply.
    pub open spec fn after(self, reply: Reply, step: GrepStep) -> bool {
        match (self, reply) {
            (GrepRun::Locating { at, pattern, flags }, Reply::Path(r)) => {
                ||| {
                    &&& step matches GrepStep::Continue(
                        GrepRun::Locating { at: next, pattern: p, flags: f },
                    )
                    &&& at.after(r, Containing::Asking(next))
                    &&& p == pattern
                    &&& f == flags
                }
                ||| {
                    &&& step matches GrepStep::Continue(
                        GrepRun::Running { target, pattern: p, flags: f },
                    )
                    &&& at.after(r, Containing::Settled(Ok(target)))
                    &&& p == pattern
                    &&& f == flags
                }
                ||| exists|e: PathError| #[trigger]
                    at.after(r, Containing::Settled(Err(e))) && step == GrepStep::Done(
                        Err(<GrepError as vstd::std_specs::convert::FromSpec<PathError>>::from_spec(e)),
                    )
            },
            (GrepRun::Running { .. }, Reply::Grepped(Err(e))) => step == GrepStep::Done(
                Err(GrepError::Spawn(e)),
            ),
            (GrepRun::Running { .. }, Reply::Grepped(Ok(report))) => Self::reported(report, step),
            (GrepRun::Spooling { .. }, Reply::Spooled(Err(e))) => step == GrepStep::Done(
                Err(GrepError::Scratch(e)),
            ),
            (
                GrepRun::Spooling { lines: n, exit_code, stdout: _, preview },
                Reply::Spooled(Ok(path)),
            ) => {
                &&& step matches GrepStep::Done(Ok(o))
                &&& o.lines == n
                &&& o.exit_code == exit_code
                &&& o.scratch_file matches Some(f)
                &&& f@ == lossy(path@)
                &&& o.preview == preview
            },
            _ => step == GrepStep::Continue(self),
        }
    }

    /// What the run waits for. Only the working directory is searched.
    pub fn action(&self) -> (a: Action)
        ensures
            self.asks(a),
            a.reads() matches Some(p) ==> self.root() matches Some(base) && within(p, base),
    {
        match self {
            GrepRun::Locating { at, .. } => at.action(),
            GrepRun::Running { target, pattern, flags } => {
                let args = build_arguments(flags, pattern.as_str(), target.path_copy());
                Action::Grep(args)
            },
            GrepRun::Spooling { stdout, .. } => Action::Spool {
                prefix: "grep".to_owned(),
                extension: "txt".to_owned(),
                contents: stdout.clone(),
            },
        }
    }

    /// Goes on from a finished `grep`.
    fn report(report: super::GrepReport) -> (step: GrepStep)
        ensures
            Self::reported(report, step),
            report.stdout@.len() > 0 <==> (step matches GrepStep::Continue(run) && run is Spooling),
    {
        let exit_code: i32 = match report.code {
            Some(c) => c,
            None => -1,
        };
        let stdout = lossy_text(report.stdout.as_slice());
        let silent = stdout.as_str().is_empty();
        let complained = exit_code != 0 && exit_code != 1 && report.stderr.len() > 0;
        let preview = if silent || complained {
            lossy_text(report.stderr.as_slice())
        } else {
            preview(stdout.as_str(), PREVIEW_LINES)
        };
        if silent {
            GrepStep::Done(Ok(GrepOutput { lines: 0, exit_code, scratch_file: None, preview }))
        } else {
            let lines = split_lines(stdout.as_str()).len();
            GrepStep::Continue(GrepRun::Spooling { lines, exit_code, stdout, preview })
        }
    }

    /// Goes on with a reply. Of a finished `grep`, anything that it printed is
    /// spooled.
    pub fn resume(self, reply: Reply) -> (step: GrepStep)
        ensures
            self.after(reply, step),
            self is Running ==> (reply matches Reply::Grepped(Ok(report)) ==> (report.stdout@.len()
                > 0 <==> (step matches GrepStep::Continue(run) && run is Spooling))),
    {
        match (self, reply) {
            (GrepRun::Locating { at, pattern, flags }, Reply::Path(r)) => match at.resume(r) {
                Containing::Asking(next) => GrepStep::Continue(
                    GrepRun::Locating { at: next, pattern, flags },
                ),
                Containing::Settled(Ok(target)) => GrepStep::Continue(
                    GrepRun::Running { target, pattern, flags },
                ),
                Containing::Settled(Err(e)) => GrepStep::Done(Err(GrepError::from(e))),
            },
            (GrepRun::Running { .. }, Reply::Grepped(Err(e))) => GrepStep::Done(
                Err(GrepError::Spawn(e)),
            ),
            (GrepRun::Running { .. }, Reply::Grepped(Ok(report))) => Self::report(report),
            (GrepRun::Spooling { .. }, Reply::Spooled(Err(e))) => GrepStep::Done(
                Err(GrepError::Scratch(e)),
            ),
            (
                GrepRun::Spooling { lines, exit_code, stdout: _, preview },
                Reply::Spooled(Ok(path)),
            ) => GrepStep::Done(
                Ok(
                    GrepOutput {
                        lines,
                        exit_code,
                        scratch_file: Some(display(path.as_slice())),
                        preview,
                    },
                ),
            ),
            (run, _) => GrepStep::Continue(run),
        }
    }
}

/// Every listed flag is an option, other than `-e`, and holds no `=`.
proof fn lemma_listed_flags()
    ensures
        forall|i: int|
            0 <= i < ALLOWED_FLAGS@.len() ==> (#[trigger] ALLOWED_FLAGS@[i]@).len() >= 2
                && ALLOWED_FLAGS@[i]@[0] == '-' && ALLOWED_FLAGS@[i]@[1] != 'e'
                && !ALLOWED_FLAGS@[i]@.contains('='),
        forall|i: int|
            0 <= i < ALLOWED_VALUE_FLAGS@.len() ==> (#[trigger] ALLOWED_VALUE_FLAGS@[i]@).len()
                >= 2 && ALLOWED_VALUE_FLAGS@[i]@[0] == '-' && ALLOWED_VALUE_FLAGS@[i]@[1] != 'e'
                && !ALLOWED_VALUE_FLAGS@[i]@.contains('='),
{
    reveal_strlit("-i");
    reveal_strlit("--ignore-case");
    reveal_strlit("-n");
    reveal_strlit("--line-number");
    reveal_strlit("-r");
    reveal_strlit("-R");
    reveal_strlit("--recursive");
    reveal_strlit("-l");
    reveal_strlit("--files-with-matches");
    reveal_strlit("-L");
    reveal_strlit("--files-without-match");
    reveal_strlit("-c");
    reveal_strlit("--count");
    reveal_strlit("-v");
    reveal_strlit("--invert-match");
    reveal_strlit("-w");
    reveal_strlit("--word-regexp");
    reveal_strlit("-x");
    reveal_strlit("--line-regexp");
    reveal_strlit("-E");
    reveal_strlit("--extended-regexp");
    reveal_strlit("-F");
    reveal_strlit("--fixed-strings");
    reveal_strlit("-G");
    reveal_strlit("--basic-regexp");
    reveal_strlit("-P");
    reveal_strlit("--perl-regexp");
    reveal_strlit("-o");
    reveal_strlit("--only-matching");
    reveal_strlit("-H");
    reveal_strlit("--with-filename");
    reveal_strlit("-h");
    reveal_strlit("--no-filename");
    reveal_strlit("-s");
    reveal_strlit("--no-messages");
    reveal_strlit("-a");
    reveal_strlit("--text");
    reveal_strlit("-I");
    reveal_strlit("-A");
    reveal_strlit("--after-context");
    reveal_strlit("-B");
    reveal_strlit("--before-context");
    reveal_strlit("-C");
    reveal_strlit("--context");
    reveal_strlit("-m");
    reveal_strlit("--max-count");
    reveal_strlit("--include");
    reveal_strlit("--exclude");
    reveal_strlit("--exclude-dir");
    reveal_strlit("--color");
}

/// Whether `f` is literally one of the listed flags.
pub open spec fn listed_flag(f: Seq<char>) -> bool {
    plain_flag(f) || exists|i: int|
        0 <= i < ALLOWED_VALUE_FLAGS@.len() && #[trigger] ALLOWED_VALUE_FLAGS@[i]@ == f
}

/// A token that is accepted among the flags is an option or a plain number. Of
/// a long option, what precedes the first `=` is literally listed.
pub proof fn law_allowed_flag_shape(f: Seq<char>)
    requires
        allowed_flag(f),
    ensures
        number(f) || (f.len() >= 2 && f[0] == '-'),
        f[0] != '-' ==> !f.contains('/') && !f.contains('.'),
        "--"@.is_prefix_of(f) ==> listed_flag(f.take(position(f, '=') as int)),
{
    lemma_listed_flags();
    reveal_strlit("--");
    lemma_position(f, '=');
    assert(f.take(f.len() as int) =~= f);
    if "--"@.is_prefix_of(f) {
        assert(f.subrange(0, 2)[0] == "--"@[0] && f.subrange(0, 2)[1] == "--"@[1]);
    }
    if plain_flag(f) {
        lemma_position_is(f, '=', f.len());
    } else if value_flag(f) {
        let i = choose|i: int|
            0 <= i < ALLOWED_VALUE_FLAGS@.len() && flag_with_value(
                f,
                #[trigger] ALLOWED_VALUE_FLAGS@[i]@,
            );
        let vf = ALLOWED_VALUE_FLAGS@[i]@;
        if f == vf {
            lemma_position_is(f, '=', f.len());
        } else {
            assert forall|j: int| 0 <= j < vf.len() implies f[j] == vf[j] && f[j] != '=' by {
                assert(f.subrange(0, vf.len() as int)[j] == vf[j]);
            }
            if "--"@.is_prefix_of(f) {
                assert("--"@ =~= vf.subrange(0, 2));
                lemma_position_is(f, '=', vf.len());
                assert(f.take(vf.len() as int) =~= vf);
            }
        }
    }
}

/// The flags come first, the pattern stands directly after `-e`, and the path,
/// the last argument, directly after `--`.
pub proof fn law_arguments_shape(flags: Seq<Seq<char>>, pattern: Seq<char>, path: Seq<u8>)
    ensures
        arguments(flags, pattern, path).len() == flags.len() + 4,
        forall|i: int|
            0 <= i < flags.len() ==> #[trigger] arguments(flags, pattern, path)[i] == encode_utf8(
                flags[i],
            ),
        arguments(flags, pattern, path)[flags.len() as int] == encode_utf8("-e"@),
        arguments(flags, pattern, path)[flags.len() as int + 1] == encode_utf8(pattern),
        arguments(flags, pattern, path)[flags.len() as int + 2] == encode_utf8("--"@),
        arguments(flags, pattern, path).last() == path,
{
}

/// Whether `grep` takes the argument behind `a` as the value of `a`: it does so
/// for `-e` and for a flag whose value is split off.
pub open spec fn takes_next(a: Seq<u8>) -> bool {
    a == encode_utf8("-e"@) || exists|f: Seq<char>|
        split_flag(f) && a == #[trigger] encode_utf8(f)
}

/// Whether `grep`, going through its arguments from the first on, reads the one
/// at `k` by itself, and not as the value of the one before it.
pub open spec fn read_by_itself(args: Seq<Seq<u8>>, k: int) -> bool
    decreases k,
{
    k <= 0 || !(read_by_itself(args, k - 1) && takes_next(args[k - 1]))
}

/// Behind accepted flags, `-e` is read as the option that it is, and the
/// pattern as its value, so that no pattern is ever read as a flag. The `--` is
/// read by itself too, so that the path is never read as one.
pub proof fn law_pattern_is_no_flag(flags: Seq<String>, pattern: Seq<char>, path: Seq<u8>)
    requires
        accepted(flags),
    ensures
        read_by_itself(arguments(texts(flags), pattern, path), flags.len() as int),
        !read_by_itself(arguments(texts(flags), pattern, path), flags.len() as int + 1),
        read_by_itself(arguments(texts(flags), pattern, path), flags.len() as int + 2),
{
    let args = arguments(texts(flags), pattern, path);
    let n = flags.len() as int;
    law_arguments_shape(texts(flags), pattern, path);
    if n > 0 && takes_next(args[n - 1]) {
        let last = flags[n - 1]@;
        assert(args[n - 1] == encode_utf8(last));
        law_text_shown(last);
        if args[n - 1] == encode_utf8("-e"@) {
            law_text_shown("-e"@);
            lemma_e_not_allowed();
        } else {
            let f = choose|f: Seq<char>| split_flag(f) && args[n - 1] == #[trigger] encode_utf8(f);
            law_text_shown(f);
            assert(has_value(flags, n - 1));
        }
    }
    reveal_with_fuel(read_by_itself, 3);
}

/// `-e` is not accepted among the flags.
proof fn lemma_e_not_allowed()
    ensures
        !allowed_flag("-e"@),
{
    lemma_listed_flags();
    reveal_strlit("-e");
    let e = "-e"@;
    assert(e[1] == 'e');
    if value_flag(e) {
        let i = choose|i: int|
            0 <= i < ALLOWED_VALUE_FLAGS@.len() && flag_with_value(
                e,
                #[trigger] ALLOWED_VALUE_FLAGS@[i]@,
            );
        let vf = ALLOWED_VALUE_FLAGS@[i]@;
        assert(e.subrange(0, vf.len() as int)[1] == e[1]);
    }
}

/// A path that resolves to a place outside the working directory is refused.
pub proof fn law_outside_refused(
    requested: String,
    base: Vec<u8>,
    path: Vec<u8>,
    pattern: String,
    flags: Vec<String>,
    step: GrepStep,
)
    requires
        !within(path@, base@),
        (GrepRun::Locating { at: Containment::Target { requested, base }, pattern, flags }).after(
            Reply::Path(Ok(path)),
            step,
        ),
    ensures
        step == GrepStep::Done(Err(GrepError::OutsideCwd(requested))),
{
}

/// Once the working directory is known, a run keeps to it, and the flags and
/// the pattern stay as they were given.
pub proof fn law_request_fixed(run: GrepRun, reply: Reply, next: GrepRun)
    requires
        run.after(reply, GrepStep::Continue(next)),
    ensures
        run.root() is Some && next.root() is Some ==> next.root() == run.root(),
        run matches GrepRun::Locating { pattern, flags, .. } ==> match next {
            GrepRun::Locating { pattern: p, flags: f, .. } => p == pattern && f == flags,
            GrepRun::Running { pattern: p, flags: f, .. } => p == pattern && f == flags,
            GrepRun::Spooling { .. } => false,
        },
{
}

/// A call whose `grep` prints something returns the number of its lines, its
/// exit code, where the whole of it was spooled, and its first lines, or the
/// error text if it failed with one.
pub proof fn law_grep_returns_output(
    target: Contained,
    pattern: String,
    flags: Vec<String>,
    report: super::GrepReport,
    second: GrepRun,
    asked: Action,
    file: Vec<u8>,
    last: GrepStep,
)
    requires
        report.stdout@.len() > 0,
        (GrepRun::Running { target, pattern, flags }).after(
            Reply::Grepped(Ok(report)),
            GrepStep::Continue(second),
        ),
        second.asks(asked),
        second.after(Reply::Spooled(Ok(file)), last),
    ensures
        asked matches Action::Spool { contents, .. } && contents@ == lossy(report.stdout@)
            && contents@.len() > 0,
        last matches GrepStep::Done(Ok(o)) && o.lines == lines(lossy(report.stdout@)).len()
            && o.exit_code == exit_code_of(report) && (o.scratch_file matches Some(f) && f@
            == lossy(file@)) && o.preview@ == shown(report),
{
    assert(second is Spooling);
}

/// A call that succeeds names a scratch file if and only if `grep` printed
/// anything, and only then counts lines.
pub proof fn law_scratch_file_iff_output(
    target: Contained,
    pattern: String,
    flags: Vec<String>,
    report: super::GrepReport,
    step: GrepStep,
    file: Vec<u8>,
    last: GrepStep,
)
    requires
        (GrepRun::Running { target, pattern, flags }).after(Reply::Grepped(Ok(report)), step),
        match step {
            GrepStep::Continue(run) => run.after(Reply::Spooled(Ok(file)), last),
            GrepStep::Done(_) => last == step,
        },
    ensures
        last matches GrepStep::Done(Ok(o)) && (o.scratch_file is Some <==> report.stdout@.len() > 0)
            && (o.lines > 0 <==> report.stdout@.len() > 0),
{
}

/// When `grep` fails with an error text, the model is shown that text, whether
/// or not something was printed before the failure.
pub proof fn law_failure_is_shown(
    target: Contained,
    pattern: String,
    flags: Vec<String>,
    report: super::GrepReport,
    step: GrepStep,
    file: Vec<u8>,
    last: GrepStep,
)
    requires
        exit_code_of(report) != 0,
        exit_code_of(report) != 1,
        report.stderr@.len() > 0,
        (GrepRun::Running { target, pattern, flags }).after(Reply::Grepped(Ok(report)), step),
        match step {
            GrepStep::Continue(run) => run.after(Reply::Spooled(Ok(file)), last),
            GrepStep::Done(_) => last == step,
        },
    ensures
        last matches GrepStep::Done(Ok(o)) && o.exit_code == exit_code_of(report) && o.preview@
            == lossy(report.stderr@),
{
}

/// Whether a token is one of the read-only flags that take no value.
pub open spec fn read_only_flag(f: Seq<char>) -> bool {
    ||| f == "-i"@
    ||| f == "--ignore-case"@
    ||| f == "-n"@
    ||| f == "--line-number"@
    ||| f == "-r"@
    ||| f == "-R"@
    ||| f == "--recursive"@
    ||| f == "-l"@
    ||| f == "--files-with-matches"@
    ||| f == "-L"@
    ||| f == "--files-without-match"@
    ||| f == "-c"@
    ||| f == "--count"@
    ||| f == "-v"@
    ||| f == "--invert-match"@
    ||| f == "-w"@
    ||| f == "--word-regexp"@
    ||| f == "-x"@
    ||| f == "--line-regexp"@
    ||| f == "-E"@
    ||| f == "--extended-regexp"@
    ||| f == "-F"@
    ||| f == "--fixed-strings"@
    ||| f == "-G"@
    ||| f == "--basic-regexp"@
    ||| f == "-P"@
    ||| f == "--perl-regexp"@
    ||| f == "-o"@
    ||| f == "--only-matching"@
    ||| f == "-H"@
    ||| f == "--with-filename"@
    ||| f == "-h"@
    ||| f == "--no-filename"@
    ||| f == "-s"@
    ||| f == "--no-messages"@
    ||| f == "-a"@
    ||| f == "--text"@
    ||| f == "-I"@
}

/// Whether a token is one of the short flags that take a value.
pub open spec fn short_value_flag(f: Seq<char>) -> bool {
    ||| f == "-A"@
    ||| f == "-B"@
    ||| f == "-C"@
    ||| f == "-m"@
}

/// Whether a token is one of the long flags that take a value.
pub open spec fn long_value_flag(f: Seq<char>) -> bool {
    ||| f == "--after-context"@
    ||| f == "--before-context"@
    ||| f == "--context"@
    ||| f == "--max-count"@
    ||| f == "--include"@
    ||| f == "--exclude"@
    ||| f == "--exclude-dir"@
    ||| f == "--color"@
}

/// The flags that are listed, and no others, are known.
pub proof fn law_flags_known(f: Seq<char>)
    ensures
        plain_flag(f) <==> read_only_flag(f),
        (exists|i: int| 0 <= i < ALLOWED_VALUE_FLAGS@.len() && #[trigger] ALLOWED_VALUE_FLAGS@[i]@
            == f) <==> short_value_flag(f) || long_value_flag(f),
{
    assert(ALLOWED_FLAGS@[0]@ == "-i"@);
    assert(ALLOWED_FLAGS@[1]@ == "--ignore-case"@);
    assert(ALLOWED_FLAGS@[2]@ == "-n"@);
    assert(ALLOWED_FLAGS@[3]@ == "--line-number"@);
    assert(ALLOWED_FLAGS@[4]@ == "-r"@);
    assert(ALLOWED_FLAGS@[5]@ == "-R"@);
    assert(ALLOWED_FLAGS@[6]@ == "--recursive"@);
    assert(ALLOWED_FLAGS@[7]@ == "-l"@);
    assert(ALLOWED_FLAGS@[8]@ == "--files-with-matches"@);
    assert(ALLOWED_FLAGS@[9]@ == "-L"@);
    assert(ALLOWED_FLAGS@[10]@ == "--files-without-match"@);
    assert(ALLOWED_FLAGS@[11]@ == "-c"@);
    assert(ALLOWED_FLAGS@[12]@ == "--count"@);
    assert(ALLOWED_FLAGS@[13]@ == "-v"@);
    assert(ALLOWED_FLAGS@[14]@ == "--invert-match"@);
    assert(ALLOWED_FLAGS@[15]@ == "-w"@);
    assert(ALLOWED_FLAGS@[16]@ == "--word-regexp"@);
    assert(ALLOWED_FLAGS@[17]@ == "-x"@);
    assert(ALLOWED_FLAGS@[18]@ == "--line-regexp"@);
    assert(ALLOWED_FLAGS@[19]@ == "-E"@);
    assert(ALLOWED_FLAGS@[20]@ == "--extended-regexp"@);
    assert(ALLOWED_FLAGS@[21]@ == "-F"@);
    assert(ALLOWED_FLAGS@[22]@ == "--fixed-strings"@);
    assert(ALLOWED_FLAGS@[23]@ == "-G"@);
    assert(ALLOWED_FLAGS@[24]@ == "--basic-regexp"@);
    assert(ALLOWED_FLAGS@[25]@ == "-P"@);
    assert(ALLOWED_FLAGS@[26]@ == "--perl-regexp"@);
    assert(ALLOWED_FLAGS@[27]@ == "-o"@);
    assert(ALLOWED_FLAGS@[28]@ == "--only-matching"@);
    assert(ALLOWED_FLAGS@[29]@ == "-H"@);
    assert(ALLOWED_FLAGS@[30]@ == "--with-filename"@);
    assert(ALLOWED_FLAGS@[31]@ == "-h"@);
    assert(ALLOWED_FLAGS@[32]@ == "--no-filename"@);
    assert(ALLOWED_FLAGS@[33]@ == "-s"@);
    assert(ALLOWED_FLAGS@[34]@ == "--no-messages"@);
    assert(ALLOWED_FLAGS@[35]@ == "-a"@);
    assert(ALLOWED_FLAGS@[36]@ == "--text"@);
    assert(ALLOWED_FLAGS@[37]@ == "-I"@);
    assert(ALLOWED_VALUE_FLAGS@[0]@ == "-A"@);
    assert(ALLOWED_VALUE_FLAGS@[1]@ == "--after-context"@);
    assert(ALLOWED_VALUE_FLAGS@[2]@ == "-B"@);
    assert(ALLOWED_VALUE_FLAGS@[3]@ == "--before-context"@);
    assert(ALLOWED_VALUE_FLAGS@[4]@ == "-C"@);
    assert(ALLOWED_VALUE_FLAGS@[5]@ == "--context"@);
    assert(ALLOWED_VALUE_FLAGS@[6]@ == "-m"@);
    assert(ALLOWED_VALUE_FLAGS@[7]@ == "--max-count"@);
    assert(ALLOWED_VALUE_FLAGS@[8]@ == "--include"@);
    assert(ALLOWED_VALUE_FLAGS@[9]@ == "--exclude"@);
    assert(ALLOWED_VALUE_FLAGS@[10]@ == "--exclude-dir"@);
    assert(ALLOWED_VALUE_FLAGS@[11]@ == "--color"@);
}

/// A token is accepted if and only if it is a read-only flag that takes no
/// value, a flag that takes one, with or without it, or nothing but digits. A
/// value is attached to a long flag with `=`, and to a short one with or
/// without it; any value will do.
pub proof fn law_accepted_tokens(f: Seq<char>)
    ensures
        allowed_flag(f) <==> {
            ||| read_only_flag(f)
            ||| exists|n: int|
                0 <= n <= f.len() && {
                    ||| n == f.len() && long_value_flag(#[trigger] f.take(n))
                    ||| n < f.len() && f[n] == '=' && long_value_flag(f.take(n))
                    ||| short_value_flag(f.take(n))
                }
            ||| f.len() > 0 && forall|i: int| 0 <= i < f.len() ==> '0' <= #[trigger] f[i] <= '9'
        },
{
    law_flags_known(f);
    lemma_value_flag_kinds();
    assert(f.take(f.len() as int) =~= f);
    if value_flag(f) {
        let i = choose|i: int|
            0 <= i < ALLOWED_VALUE_FLAGS@.len() && flag_with_value(
                f,
                #[trigger] ALLOWED_VALUE_FLAGS@[i]@,
            );
        let vf = ALLOWED_VALUE_FLAGS@[i]@;
        law_flags_known(vf);
        assert(f.take(vf.len() as int) =~= vf);
    }
    if exists|n: int|
        0 <= n <= f.len() && {
            ||| n == f.len() && long_value_flag(#[trigger] f.take(n))
            ||| n < f.len() && f[n] == '=' && long_value_flag(f.take(n))
            ||| short_value_flag(f.take(n))
        } {
        let n = choose|n: int|
            0 <= n <= f.len() && {
                ||| n == f.len() && long_value_flag(#[trigger] f.take(n))
                ||| n < f.len() && f[n] == '=' && long_value_flag(f.take(n))
                ||| short_value_flag(f.take(n))
            };
        let vf = f.take(n);
        law_flags_known(vf);
        let i = choose|i: int|
            0 <= i < ALLOWED_VALUE_FLAGS@.len() && #[trigger] ALLOWED_VALUE_FLAGS@[i]@ == vf;
        assert(vf =~= f.subrange(0, vf.len() as int));
        assert(flag_with_value(f, ALLOWED_VALUE_FLAGS@[i]@));
    }
}

/// Long flags start with `--`, and short ones do not.
proof fn lemma_value_flag_kinds()
    ensures
        forall|f: Seq<char>| #[trigger] long_value_flag(f) ==> "--"@.is_prefix_of(f),
        forall|f: Seq<char>| #[trigger] short_value_flag(f) ==> !"--"@.is_prefix_of(f),
{
    reveal_strlit("--");
    reveal_strlit("-A");
    reveal_strlit("--after-context");
    reveal_strlit("-B");
    reveal_strlit("--before-context");
    reveal_strlit("-C");
    reveal_strlit("--context");
    reveal_strlit("-m");
    reveal_strlit("--max-count");
    reveal_strlit("--include");
    reveal_strlit("--exclude");
    reveal_strlit("--exclude-dir");
    reveal_strlit("--color");
    assert forall|f: Seq<char>| #[trigger] long_value_flag(f) implies "--"@.is_prefix_of(f) by {
        assert(f.len() >= 2 && f[0] == '-' && f[1] == '-');
        assert("--"@ =~= f.subrange(0, 2));
    }
    assert forall|f: Seq<char>| #[trigger] short_value_flag(f) implies !"--"@.is_prefix_of(f) by {
        assert(f.len() == 2 && f[1] != '-');
        if "--"@.is_prefix_of(f) {
            assert(f.subrange(0, 2)[1] == f[1]);
        }
    }
}

/// Whether the token at `i` is a flag without the value that it needs: the next
/// token is not there, or is not made of digits. `--color` needs none.
pub open spec fn lacks_value(flags: Seq<String>, i: int) -> bool {
    &&& short_value_flag(flags[i]@) || (long_value_flag(flags[i]@) && flags[i]@ != "--color"@)
    &&& !(i + 1 < flags.len() && flags[i + 1]@.len() > 0 && forall|k: int|
        0 <= k < flags[i + 1]@.len() ==> '0' <= #[trigger] flags[i + 1]@[k] <= '9')
}

/// Flags are accepted if and only if every token is, and none lacks a value.
/// Otherwise one of them is named: the first token that is not accepted, or, if
/// all are, the first that lacks its value.
pub proof fn law_flags_accepted(flags: Seq<String>, f: String)
    ensures
        accepted(flags) <==> forall|i: int|
            0 <= i < flags.len() ==> allowed_flag(#[trigger] flags[i]@) && !lacks_value(flags, i),
        !accepted(flags) && refused(flags, f) ==> exists|i: int|
            {
                &&& 0 <= i < flags.len()
                &&& #[trigger] flags[i] == f
                &&& {
                    ||| !allowed_flag(f@)
                    ||| lacks_value(flags, i) && forall|k: int|
                        0 <= k < flags.len() ==> allowed_flag(#[trigger] flags[k]@)
                }
                &&& forall|k: int|
                    0 <= k < i ==> allowed_flag(#[trigger] flags[k]@) && (allowed_flag(f@)
                        ==> !lacks_value(flags, k))
            },
{
    lemma_value_flag_kinds();
    assert(long_value_flag("--color"@));
    assert forall|i: int| 0 <= i < flags.len() implies has_value(flags, i) == !(
    #[trigger] lacks_value(flags, i)) by {
        law_flags_known(flags[i]@);
    }
    if accepted(flags) {
        assert forall|i: int| 0 <= i < flags.len() implies allowed_flag(#[trigger] flags[i]@)
            && !lacks_value(flags, i) by {
            assert(has_value(flags, i));
        }
    }
    if forall|i: int|
        0 <= i < flags.len() ==> allowed_flag(#[trigger] flags[i]@) && !lacks_value(flags, i) {
        assert forall|i: int| 0 <= i < flags.len() implies #[trigger] has_value(flags, i) by {
            assert(allowed_flag(flags[i]@));
        }
    }
    if !accepted(flags) && refused(flags, f) {
        if all_allowed(flags) {
            let i = choose|i: int|
                0 <= i < flags.len() && flags[i] == f && !(#[trigger] has_value(flags, i))
                    && forall|j: int| 0 <= j < i ==> #[trigger] has_value(flags, j);
            assert(flags[i] == f);
            assert forall|k: int| 0 <= k < i implies allowed_flag(#[trigger] flags[k]@) && (
            allowed_flag(f@) ==> !lacks_value(flags, k)) by {
                assert(has_value(flags, k));
            }
        } else {
            let i = choose|i: int|
                0 <= i < flags.len() && #[trigger] flags[i] == f && !allowed_flag(f@)
                    && all_allowed(flags.take(i));
            assert forall|k: int| 0 <= k < i implies allowed_flag(#[trigger] flags[k]@) && (
            allowed_flag(f@) ==> !lacks_value(flags, k)) by {
                assert(flags.take(i)[k] == flags[k]);
            }
        }
    }
}

/// `grep` is run with the flags as they were given, then the pattern, unchanged,
/// behind `-e`, and then the resolved path behind `--`.
pub proof fn law_grep_asked(target: Contained, pattern: String, flags: Vec<String>, asked: Action)
    requires
        (GrepRun::Running { target, pattern, flags }).asks(asked),
    ensures
        asked matches Action::Grep(args) && args@.len() == flags@.len() + 4 && (forall|i: int|
            0 <= i < flags@.len() ==> (#[trigger] args@[i])@ == encode_utf8(flags@[i]@))
            && args@[flags@.len() as int]@ == encode_utf8("-e"@) && args@[flags@.len() as int + 1]@
            == encode_utf8(pattern@) && args@[flags@.len() as int + 2]@ == encode_utf8("--"@)
            && args@[flags@.len() as int + 3]@ == target.place(),
{
    if let Action::Grep(args) = asked {
        let all = arguments(texts(flags@), pattern@, target.place());
        law_arguments_shape(texts(flags@), pattern@, target.place());
        assert(bytes_of(args@).len() == all.len());
        assert forall|i: int| 0 <= i < args@.len() implies (#[trigger] args@[i])@ == all[i] by {
            assert(bytes_of(args@)[i] == args@[i]@);
        }
        assert forall|i: int| 0 <= i < flags@.len() implies (#[trigger] args@[i])@ == encode_utf8(
            flags@[i]@,
        ) by {
            assert(all[i] == encode_utf8(texts(flags@)[i]));
        }
        assert(all[flags@.len() as int + 3] == all.last());
    }
}

/// A request that resolves to a place in the working directory is searched, with
/// the pattern and the flags as they were given; one that cannot be resolved is
/// an error with the path as it was requested.
pub proof fn law_located(
    requested: String,
    base: Vec<u8>,
    pattern: String,
    flags: Vec<String>,
    reply: Result<Vec<u8>, std::io::Error>,
    step: GrepStep,
)
    requires
        (GrepRun::Locating { at: Containment::Target { requested, base }, pattern, flags }).after(
            Reply::Path(reply),
            step,
        ),
    ensures
        reply matches Ok(path) ==> (within(path@, base@) ==> (step matches GrepStep::Continue(
            GrepRun::Running { target, pattern: p, flags: f },
        ) && target.place() == path@ && target.root() == base@ && target.request() == requested && p
            == pattern && f == flags)),
        reply matches Ok(path) ==> (!within(path@, base@) ==> step == GrepStep::Done(
            Err(GrepError::OutsideCwd(requested)),
        )),
        reply matches Err(e) ==> step == GrepStep::Done(
            Err(GrepError::Resolve { path: requested, source: e }),
        ),
{
}

/// The working directory is kept as it was reported; if it is not known, that
/// is the error.
pub proof fn law_working_dir_known(
    requested: String,
    pattern: String,
    flags: Vec<String>,
    reply: Result<Vec<u8>, std::io::Error>,
    step: GrepStep,
)
    requires
        (GrepRun::Locating { at: Containment::Base { requested }, pattern, flags }).after(
            Reply::Path(reply),
            step,
        ),
    ensures
        reply matches Ok(base) ==> step == GrepStep::Continue(
            GrepRun::Locating { at: Containment::Target { requested, base }, pattern, flags },
        ),
        reply matches Err(e) ==> step == GrepStep::Done(Err(GrepError::Cwd(e))),
{
}

/// What comes of a `grep` that has finished: `step` follows its report, and
/// `last` follows a scratch file if there is one. The exit code is the one that
/// `grep` left, whatever it printed, and -1 if there is none. All that it
/// printed is counted and spooled. Shown are its first 40 lines, or its error
/// text if it printed nothing, or if it left an error text with a code other
/// than 0 and 1.
pub proof fn law_report_passed_on(
    target: Contained,
    pattern: String,
    flags: Vec<String>,
    report: super::GrepReport,
    step: GrepStep,
    file: Vec<u8>,
    last: GrepStep,
)
    requires
        (GrepRun::Running { target, pattern, flags }).after(Reply::Grepped(Ok(report)), step),
        match step {
            GrepStep::Continue(run) => run.after(Reply::Spooled(Ok(file)), last),
            GrepStep::Done(_) => last == step,
        },
    ensures
        last matches GrepStep::Done(Ok(o)) && {
            &&& report.code matches Some(c) ==> o.exit_code == c
            &&& report.code is None ==> o.exit_code == -1
            &&& o.lines == lines(lossy(report.stdout@)).len()
            &&& report.stdout@.len() == 0 ==> o.scratch_file is None
            &&& report.stdout@.len() > 0 ==> (o.scratch_file matches Some(f) && f@ == lossy(file@))
            &&& report.stdout@.len() == 0 ==> o.preview@ == lossy(report.stderr@)
            &&& report.code != Some(0i32) && report.code != Some(1i32) && report.stderr@.len() > 0
                ==> o.preview@ == lossy(report.stderr@)
            &&& report.stdout@.len() > 0 && (report.code == Some(0i32) || report.code == Some(1i32)
                || report.stderr@.len() == 0) ==> o.preview@ == previewed(
                lossy(report.stdout@),
                40,
            )
        },
{
    if report.stdout@.len() == 0 {
        assert(lines(lossy(report.stdout@)).len() == 0);
    }
}

/// What `grep` printed is spooled as it is, under a name that starts with
/// `grep` and ends in `txt`; what goes wrong with it is passed on.
pub proof fn law_output_spooled(
    target: Contained,
    pattern: String,
    flags: Vec<String>,
    reply: Result<super::GrepReport, std::io::Error>,
    step: GrepStep,
    asked: Action,
    error: std::io::Error,
    last: GrepStep,
)
    requires
        (GrepRun::Running { target, pattern, flags }).after(Reply::Grepped(reply), step),
        step matches GrepStep::Continue(run) ==> run.asks(asked) && run.after(
            Reply::Spooled(Err(error)),
            last,
        ),
    ensures
        reply matches Err(e) ==> step == GrepStep::Done(Err(GrepError::Spawn(e))),
        reply matches Ok(report) ==> (report.stdout@.len() > 0 ==> step is Continue && (
        asked matches Action::Spool { prefix, extension, contents } && prefix@ == "grep"@
            && extension@ == "txt"@ && contents@ == lossy(report.stdout@)) && last
            == GrepStep::Done(Err(GrepError::Scratch(error)))),
{
}

/// The message of an error holds the path or the flag as it was given, and ends
/// with the words of the cause where there is one.
pub proof fn law_grep_error_message(e: GrepError, cause: Seq<char>)
    ensures
        e matches GrepError::Cwd(_) ==> e.text(cause)
            == "could not determine the current working directory: "@ + cause,
        e matches GrepError::OutsideCwd(p) ==> e.text(cause) == "'"@ + p@
            + "' is outside the current working directory"@,
        e matches GrepError::Resolve { path, source: _ } ==> e.text(cause)
            == "could not resolve '"@ + path@ + "': "@ + cause,
        e matches GrepError::DisallowedFlag(f) ==> e.text(cause) == "flag '"@ + f@
            + "' is not allowed; grep is restricted to read-only options"@,
        e matches GrepError::Spawn(_) ==> e.text(cause) == "failed to run grep: "@ + cause,
        e matches GrepError::Scratch(_) ==> e.text(cause) == "could not write scratch file: "@
            + cause,
{
}

/// Flags are validated by the laws on flags: all is well if and only if every
/// token is accepted and none lacks its value.
pub proof fn law_flags_validated(flags: &[String], r: Result<(), GrepError>, f: &str, b: bool)
    requires
        call_ensures(validate_flags, (flags,), r),
        call_ensures(is_allowed_flag, (f,), b),
    ensures
        r is Ok <==> forall|i: int|
            0 <= i < flags@.len() ==> allowed_flag(#[trigger] flags@[i]@) && !lacks_value(flags@, i),
        r matches Err(e) ==> (e matches GrepError::DisallowedFlag(x) && flags@.contains(x)),
        b == allowed_flag(f@),
{
    if let Err(GrepError::DisallowedFlag(x)) = r {
        law_flags_accepted(flags@, x);
    } else {
        law_flags_accepted(flags@, arbitrary());
    }
}

/// A call with accepted flags goes on with the pattern, the flags and the path
/// as they were given, the path being `.` if there is none; a call with any
/// other flags is refused.
pub proof fn law_call_started(args: GrepArgs, step: GrepStep)
    requires
        call_ensures(Grep::call, (&Grep, args), step),
    ensures
        (forall|i: int|
            0 <= i < args.flags@.len() ==> allowed_flag(#[trigger] args.flags@[i]@) && !lacks_value(
                args.flags@,
                i,
            )) ==> (step matches GrepStep::Continue(
            GrepRun::Locating { at: Containment::Base { requested }, pattern, flags },
        ) && pattern@ == args.pattern@ && flags == args.flags && (args.path matches Some(p)
            ==> requested@ == p@) && (args.path is None ==> requested@ == "."@)),
        !(forall|i: int|
            0 <= i < args.flags@.len() ==> allowed_flag(#[trigger] args.flags@[i]@) && !lacks_value(
                args.flags@,
                i,
            )) ==> (step matches GrepStep::Done(Err(GrepError::DisallowedFlag(_)))),
{
    law_flags_accepted(args.flags@, arbitrary());
}

/// The exit code that `grep` leaves is the one that the call returns, for every
/// code and whatever `grep` printed; it is -1 if `grep` left none.
pub proof fn law_exit_code_kept(
    target: Contained,
    pattern: String,
    flags: Vec<String>,
    report: super::GrepReport,
    step: GrepStep,
    file: Vec<u8>,
    last: GrepStep,
)
    requires
        call_ensures(
            GrepRun::resume,
            (GrepRun::Running { target, pattern, flags }, Reply::Grepped(Ok(report))),
            step,
        ),
        match step {
            GrepStep::Continue(run) => call_ensures(
                GrepRun::resume,
                (run, Reply::Spooled(Ok(file))),
                last,
            ),
            GrepStep::Done(_) => last == step,
        },
    ensures
        last matches GrepStep::Done(Ok(o)) && (report.code matches Some(c) ==> o.exit_code == c) && (
        report.code is None ==> o.exit_code == -1) && o.lines == lines(
            lossy(report.stdout@),
        ).len(),
{
    law_report_passed_on(target, pattern, flags, report, step, file, last);
}

} // verus!
