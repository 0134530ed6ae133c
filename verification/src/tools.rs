//! Tools that a language model can call to work with files under the current
//! working directory.
//!
//! A tool call is a run: it says which [`Action`] it waits for, and goes on
//! with the [`Reply`] to it. Every tool is confined to the working directory
//! (see [`contain`]). A tool that can produce bulky output hands the full text
//! over to be spooled to a scratch file and returns the file's path with a
//! [`preview`].

pub mod explore;
pub mod grep;
pub mod read_file;
pub mod scratch;

pub use explore::Explore;
pub use grep::Grep;
pub use read_file::ReadFile;

use crate::paths::{copy_all, is_within, join_path, joined, within};
use crate::text::{decimal, join, join_lines, lines, push_decimal, split_lines};
use vstd::prelude::*;
use vstd::string::*;

verus! {

/// `std::io::Error`, carried through unread.
#[verifier::external_type_specification]
#[verifier::external_body]
pub struct ExIoError(std::io::Error);

/// `std::io::Error`'s `Display`: what the operating system calls the error.
/// Nothing is claimed of the text.
#[verifier::external_body]
pub(crate) fn io_error_text(e: &std::io::Error) -> (s: String) {
    e.to_string()
}

/// Error resolving a requested path against the working directory.
#[derive(Debug)]
pub enum PathError {
    Cwd(std::io::Error),
    OutsideCwd(String),
    Resolve { path: String, source: std::io::Error },
}

impl PathError {
    /// The message for this error, with the words of its cause.
    pub open spec fn text(self, cause: Seq<char>) -> Seq<char> {
        match self {
            PathError::Cwd(_) => "could not determine the current working directory: "@ + cause,
            PathError::OutsideCwd(p) => "'"@ + p@ + "' is outside the current working directory"@,
            PathError::Resolve { path, source: _ } => "could not resolve '"@ + path@ + "': "@
                + cause,
        }
    }

    /// The message for this error, given the words of its cause.
    pub fn message_with(&self, cause: &str) -> (s: String)
        ensures
            s@ == self.text(cause@),
    {
        match self {
            PathError::Cwd(_) => String::from_str(
                "could not determine the current working directory: ",
            ).concat(cause),
            PathError::OutsideCwd(p) => String::from_str("'").concat(p.as_str()).concat(
                "' is outside the current working directory",
            ),
            PathError::Resolve { path, source: _ } => String::from_str("could not resolve '").concat(
                path.as_str(),
            ).concat("': ").concat(cause),
        }
    }

    /// The message for this error.
    pub fn message(&self) -> (s: String)
        ensures
            exists|cause: Seq<char>| s@ == #[trigger] self.text(cause),
    {
        let cause = match self {
            PathError::Cwd(e) => io_error_text(e),
            PathError::OutsideCwd(_) => String::new(),
            PathError::Resolve { path: _, source } => io_error_text(source),
        };
        self.message_with(cause.as_str())
    }
}

/// The kind of value that a parameter takes.
#[derive(Debug, Clone, Copy, PartialEq, Eq, Structural)]
pub enum ParameterKind {
    Text,
    TextList,
}

/// A parameter of a tool.
#[derive(Debug)]
pub struct Parameter {
    pub name: String,
    pub kind: ParameterKind,
    pub description: String,
}

impl Parameter {
    /// Whether this is the parameter with the given name, kind and description.
    pub open spec fn is(self, name: Seq<char>, kind: ParameterKind, description: Seq<char>) -> bool {
        self.name@ == name && self.kind == kind && self.description@ == description
    }

    pub fn new(name: &str, kind: ParameterKind, description: &str) -> (p: Parameter)
        ensures
            p.is(name@, kind, description@),
    {
        Parameter { name: name.to_owned(), kind, description: description.to_owned() }
    }
}

/// What a model is told about a tool.
#[derive(Debug)]
pub struct ToolDefinition {
    pub name: String,
    pub description: String,
    pub parameters: Vec<Parameter>,
    /// The names of the parameters that cannot be left out.
    pub required: Vec<String>,
}

/// What a run asks of the program around it.
#[derive(Debug)]
pub enum Action {
    /// The canonical path of the current working directory.
    WorkingDir,
    /// The canonical form of a path.
    Resolve(Vec<u8>),
    /// Whether a path names a directory.
    IsDir(Vec<u8>),
    /// Whether a path names a regular file.
    IsFile(Vec<u8>),
    /// The contents of a file, as UTF-8 text.
    ReadText(Vec<u8>),
    /// The entries of a directory.
    List(Vec<u8>),
    /// The entries of a subtree, without the skipped directories.
    Walk(Vec<u8>),
    /// What `grep` prints for these arguments.
    Grep(Vec<Vec<u8>>),
    /// The path of a new scratch file with these contents.
    Spool { prefix: String, extension: String, contents: String },
}

impl Action {
    /// The path whose contents or kind the action looks at.
    pub open spec fn reads(self) -> Option<Seq<u8>> {
        match self {
            Action::IsDir(p) | Action::IsFile(p) | Action::ReadText(p) | Action::List(p)
            | Action::Walk(p) => Some(p@),
            Action::Grep(args) => Some(args@.last()@),
            _ => None,
        }
    }
}

/// An entry of a directory.
#[derive(Debug)]
pub struct Child {
    pub name: Vec<u8>,
    /// Whether it is a directory, if that could be told.
    pub is_dir: Option<bool>,
}

/// An entry of a subtree.
#[derive(Debug)]
pub struct Walked {
    pub path: Vec<u8>,
    /// The last component of the path, if it is UTF-8.
    pub name: Option<String>,
    pub is_file: bool,
}

/// What a finished `grep` left behind.
#[derive(Debug)]
pub struct GrepReport {
    /// The exit code; none if a signal ended the process.
    pub code: Option<i32>,
    pub stdout: Vec<u8>,
    pub stderr: Vec<u8>,
}

/// The outcome of an [`Action`]: a path for `WorkingDir` and `Resolve`, a flag
/// for `IsDir` and `IsFile`, and so on. A run that gets another reply than the
/// one it waits for stays where it is.
#[derive(Debug)]
pub enum Reply {
    Path(Result<Vec<u8>, std::io::Error>),
    Flag(bool),
    Text(Result<String, std::io::Error>),
    Children(Result<Vec<Child>, std::io::Error>),
    Walked(Result<Vec<Walked>, std::io::Error>),
    Grepped(Result<GrepReport, std::io::Error>),
    Spooled(Result<Vec<u8>, std::io::Error>),
}

/// A path that was requested, resolved, and found to lie in the working
/// directory.
#[derive(Debug)]
pub struct Contained {
    requested: String,
    base: Vec<u8>,
    path: Vec<u8>,
}

impl Contained {
    #[verifier::type_invariant]
    spec fn inside(self) -> bool {
        within(self.path@, self.base@)
    }

    /// The path as it was requested.
    pub closed spec fn request(self) -> String {
        self.requested
    }

    /// The working directory.
    pub closed spec fn root(self) -> Seq<u8> {
        self.base@
    }

    /// The resolved path.
    pub closed spec fn place(self) -> Seq<u8> {
        self.path@
    }

    /// The path as it was requested.
    pub fn requested(&self) -> (r: String)
        ensures
            r == self.request(),
    {
        self.requested.clone()
    }

    /// The working directory.
    pub fn base(&self) -> (r: &[u8])
        ensures
            r@ == self.root(),
    {
        self.base.as_slice()
    }

    /// The resolved path, which lies in the working directory.
    pub fn path(&self) -> (r: &[u8])
        ensures
            r@ == self.place(),
            within(self.place(), self.root()),
    {
        proof {
            use_type_invariant(self);
        }
        self.path.as_slice()
    }

    /// A copy of the resolved path, which lies in the working directory.
    pub fn path_copy(&self) -> (r: Vec<u8>)
        ensures
            r@ == self.place(),
            within(self.place(), self.root()),
    {
        copy_all(self.path())
    }
}

/// A path on its way to being [`Contained`].
#[derive(Debug)]
pub enum Containment {
    /// The working directory is not known yet.
    Base { requested: String },
    /// The canonical form of the path is not known yet.
    Target { requested: String, base: Vec<u8> },
}

/// Where a [`Containment`] stands after a reply.
#[derive(Debug)]
pub enum Containing {
    Asking(Containment),
    Settled(Result<Contained, PathError>),
}

/// Resolves `requested`, relative to or within the working directory, to a
/// canonical path and makes sure that it stays in the subtree of the working
/// directory.
///
/// The canonical form has `..` and symbolic links resolved, and only it is
/// compared, so neither can be used to leave the working directory.
pub fn contain(requested: &str) -> (c: Containment)
    ensures
        c matches Containment::Base { requested: r } && r@ == requested@,
{
    Containment::Base { requested: requested.to_owned() }
}

impl Containment {
    /// The working directory, once it is known.
    pub open spec fn root(self) -> Option<Seq<u8>> {
        match self {
            Containment::Base { requested: _ } => None,
            Containment::Target { requested: _, base } => Some(base@),
        }
    }

    /// What is needed next: the working directory, then the canonical form of
    /// the requested path taken relative to it.
    pub open spec fn asks(self, a: Action) -> bool {
        match self {
            Containment::Base { requested: _ } => a == Action::WorkingDir,
            Containment::Target { requested, base } => a matches Action::Resolve(p) && p@ == joined(
                base@,
                vstd::utf8::encode_utf8(requested@),
            ),
        }
    }

    /// The outcome of a reply.
    pub open spec fn after(self, reply: Result<Vec<u8>, std::io::Error>, c: Containing) -> bool {
        match (self, reply) {
            (Containment::Base { requested: _ }, Err(e)) => c == Containing::Settled(
                Err(PathError::Cwd(e)),
            ),
            (Containment::Base { requested }, Ok(base)) => c == Containing::Asking(
                Containment::Target { requested, base },
            ),
            (Containment::Target { requested, base: _ }, Err(source)) => c == Containing::Settled(
                Err(PathError::Resolve { path: requested, source }),
            ),
            (Containment::Target { requested, base }, Ok(path)) => if within(path@, base@) {
                &&& c matches Containing::Settled(Ok(k))
                &&& k.request() == requested
                &&& k.root() == base@
                &&& k.place() == path@
            } else {
                c == Containing::Settled(Err(PathError::OutsideCwd(requested)))
            },
        }
    }

    /// What is needed next.
    pub fn action(&self) -> (a: Action)
        ensures
            self.asks(a),
    {
        match self {
            Containment::Base { requested: _ } => Action::WorkingDir,
            Containment::Target { requested, base } => Action::Resolve(
                join_path(base.as_slice(), requested.as_str().as_bytes()),
            ),
        }
    }

    /// Goes on with the path that was asked for.
    pub fn resume(self, reply: Result<Vec<u8>, std::io::Error>) -> (c: Containing)
        ensures
            self.after(reply, c),
    {
        match self {
            Containment::Base { requested } => match reply {
                Err(e) => Containing::Settled(Err(PathError::Cwd(e))),
                Ok(base) => Containing::Asking(Containment::Target { requested, base }),
            },
            Containment::Target { requested, base } => match reply {
                Err(source) => Containing::Settled(
                    Err(PathError::Resolve { path: requested, source }),
                ),
                Ok(path) => if is_within(path.as_slice(), base.as_slice()) {
                    Containing::Settled(Ok(Contained { requested, base, path }))
                } else {
                    Containing::Settled(Err(PathError::OutsideCwd(requested)))
                },
            },
        }
    }
}

/// The first `max` lines of a text, with a note on how many were left out.
pub open spec fn previewed(t: Seq<char>, max: nat) -> Seq<char> {
    let all = lines(t);
    if all.len() <= max {
        join(all, seq!['\n'])
    } else {
        join(all.take(max as int), seq!['\n']) + "\n… ("@ + decimal((all.len() - max) as nat)
            + " more lines)"@
    }
}

/// First `max_lines` lines of `text`, with a trailing note if it was truncated.
pub fn preview(text: &str, max_lines: usize) -> (out: String)
    ensures
        out@ == previewed(text@, max_lines as nat),
{
    let all = split_lines(text);
    let total = all.len();
    if total <= max_lines {
        assert(lines(text@).take(total as int) =~= lines(text@));
        join_lines(&all, total)
    } else {
        let mut out = join_lines(&all, max_lines);
        out.append("\n… (");
        push_decimal(&mut out, (total - max_lines) as u64);
        out.append(" more lines)");
        out
    }
}

/// The preview of a text that has no more lines than the limit, and whose line
/// endings are single line feeds, none of them at its end, is the text itself.
pub proof fn law_preview_of_short_text(t: Seq<char>, max: nat)
    requires
        lines(t).len() <= max,
        forall|i: int| 0 <= i < t.len() - 1 ==> !(#[trigger] t[i] == '\r' && t[i + 1] == '\n'),
        t.len() > 0 ==> t.last() != '\n',
    ensures
        previewed(t, max) == t,
{
    crate::text::law_join_of_lines(t);
}

/// A path is accepted if and only if its canonical form lies in the working
/// directory.
pub proof fn law_contain_decides(
    requested: String,
    base: Vec<u8>,
    path: Vec<u8>,
    c: Containing,
)
    requires
        (Containment::Target { requested, base }).after(Ok(path), c),
    ensures
        (c matches Containing::Settled(Ok(_))) <==> within(path@, base@),
        !within(path@, base@) ==> c == Containing::Settled(
            Err(PathError::OutsideCwd(requested)),
        ),
{
}

/// A scratch file can be read back: asked for by the path that a tool showed,
/// it is looked for in the scratch directory of the working directory, and
/// accepted if that is where it lies.
pub proof fn law_scratch_file_reachable(
    base: Vec<u8>,
    requested: String,
    prefix: Seq<char>,
    n: nat,
    extension: Seq<char>,
    a: Action,
    path: Vec<u8>,
    c: Containing,
)
    requires
        crate::paths::absolute(base@),
        prefix.len() > 0 ==> prefix[0] != '/',
        requested@ == crate::paths::lossy(scratch::file_path(prefix, n, extension)),
        (Containment::Target { requested, base }).asks(a),
        a matches Action::Resolve(p) && p@ == path@,
        (Containment::Target { requested, base }).after(Ok(path), c),
    ensures
        c matches Containing::Settled(Ok(k)) && k.place() == joined(
            base@,
            scratch::file_path(prefix, n, extension),
        ),
{
    scratch::law_file_path_shown(prefix, n, extension);
    scratch::law_file_in_scratch_dir(base@, prefix, n, extension);
}

/// A text with no more lines than the limit is shown line by line. Of a longer
/// one the first lines are shown, as many as the limit allows, and then a note
/// with the number of those left out.
pub proof fn law_preview_lines(t: Seq<char>, max: nat)
    ensures
        lines(t).len() <= max ==> previewed(t, max) == join(lines(t), seq!['\n']),
        lines(t).len() > max ==> exists|digits: Seq<char>|
            {
                &&& previewed(t, max) == join(lines(t).take(max as int), seq!['\n'])
                    + "\n… ("@ + digits + " more lines)"@
                &&& #[trigger] crate::text::number_read(digits) == lines(t).len() - max
                &&& forall|i: int| 0 <= i < digits.len() ==> '0' <= #[trigger] digits[i] <= '9'
                &&& digits.len() > 0 && digits[0] != '0'
            },
{
    if lines(t).len() > max {
        let n = (lines(t).len() - max) as nat;
        crate::text::law_decimal_reads_back(n);
        assert(crate::text::number_read(decimal(n)) == n);
    }
}

/// A request is resolved from the working directory: a path that starts with
/// `/` as it is, any other below the working directory, with every component
/// that it names.
pub proof fn law_request_resolved(requested: String, base: Vec<u8>, a: Action)
    requires
        (Containment::Target { requested, base }).asks(a),
    ensures
        a matches Action::Resolve(p) && (requested@.len() > 0 && requested@[0] == '/' ==> p@
            == vstd::utf8::encode_utf8(requested@)) && (crate::paths::absolute(base@) && !(
        requested@.len() > 0 && requested@[0] == '/') ==> crate::paths::components(p@)
            == crate::paths::components(base@) + crate::paths::segments(
            vstd::utf8::encode_utf8(requested@),
        )),
{
    let r = vstd::utf8::encode_utf8(requested@);
    if requested@.len() > 0 && requested@[0] == '/' {
        crate::paths::lemma_slash_text(requested@);
    } else {
        scratch::lemma_absolute_text(requested@);
        if crate::paths::absolute(base@) {
            crate::paths::lemma_components_joined(base@, r);
        }
    }
}

/// Whatever the reply, a request ends in the canonical path if and only if that
/// lies in the working directory, keeps the words of the request and the
/// working directory, and passes on what went wrong.
pub proof fn law_contain_outcome(
    at: Containment,
    reply: Result<Vec<u8>, std::io::Error>,
    c: Containing,
)
    requires
        at.after(reply, c),
    ensures
        at matches Containment::Base { requested } ==> (reply matches Ok(dir) ==> c
            == Containing::Asking(Containment::Target { requested, base: dir })),
        at matches Containment::Base { requested: _ } ==> (reply matches Err(e) ==> c
            == Containing::Settled(Err(PathError::Cwd(e)))),
        at matches Containment::Target { requested, base } ==> (reply matches Ok(path) ==> (within(
            path@,
            base@,
        ) ==> (c matches Containing::Settled(Ok(k)) && k.place() == path@ && k.root() == base@
            && k.request() == requested))),
        at matches Containment::Target { requested, base } ==> (reply matches Ok(path) ==> (
        !within(path@, base@) ==> c == Containing::Settled(
            Err(PathError::OutsideCwd(requested)),
        ))),
        at matches Containment::Target { requested, base: _ } ==> (reply matches Err(e) ==> c
            == Containing::Settled(Err(PathError::Resolve { path: requested, source: e }))),
{
}

/// First the working directory is asked for, and nothing else.
pub proof fn law_working_dir_first(requested: String, a: Action)
    requires
        (Containment::Base { requested }).asks(a),
    ensures
        a == Action::WorkingDir,
{
}

/// Every action that looks at a file or a directory is counted with the path
/// that it looks at; of `grep`, that is the last argument.
pub proof fn law_reads_counted(a: Action)
    ensures
        a matches Action::IsDir(p) ==> a.reads() == Some(p@),
        a matches Action::IsFile(p) ==> a.reads() == Some(p@),
        a matches Action::ReadText(p) ==> a.reads() == Some(p@),
        a matches Action::List(p) ==> a.reads() == Some(p@),
        a matches Action::Walk(p) ==> a.reads() == Some(p@),
        a matches Action::Grep(args) ==> a.reads() == Some(args@[args@.len() - 1]@),
{
}

/// The message of an error holds the path as it was requested, and ends with
/// the words of the cause where there is one.
pub proof fn law_path_error_message(e: PathError, cause: Seq<char>)
    ensures
        e matches PathError::Cwd(_) ==> e.text(cause)
            == "could not determine the current working directory: "@ + cause,
        e matches PathError::OutsideCwd(p) ==> e.text(cause) == "'"@ + p@
            + "' is outside the current working directory"@,
        e matches PathError::Resolve { path, source: _ } ==> e.text(cause)
            == "could not resolve '"@ + path@ + "': "@ + cause,
{
}

/// A preview has the first lines of the text, and the limit is kept.
pub proof fn law_preview_shows_first_lines(text: &str, max_lines: usize, out: String)
    requires
        call_ensures(preview, (text, max_lines), out),
    ensures
        lines(text@).len() <= max_lines ==> out@ == join(lines(text@), seq!['\n']),
        lines(text@).len() > max_lines ==> join(
            lines(text@).take(max_lines as int),
            seq!['\n'],
        ).is_prefix_of(out@) && " more lines)"@.is_suffix_of(out@),
{
    if lines(text@).len() > max_lines {
        let first = join(lines(text@).take(max_lines as int), seq!['\n']);
        let note = " more lines)"@;
        assert(first =~= out@.subrange(0, first.len() as int));
        assert(note =~= out@.subrange(out@.len() - note.len(), out@.len() as int));
    }
}

/// What a request asks for and what comes of a reply is as the laws on requests
/// say.
pub proof fn law_request_followed(
    at: Containment,
    a: Action,
    reply: Result<Vec<u8>, std::io::Error>,
    c: Containing,
)
    requires
        call_ensures(Containment::action, (&at,), a),
        call_ensures(Containment::resume, (at, reply), c),
    ensures
        at is Base ==> a == Action::WorkingDir,
        at matches Containment::Target { requested, base } ==> (a matches Action::Resolve(p) && p@
            == joined(base@, vstd::utf8::encode_utf8(requested@))),
        at matches Containment::Target { requested: _, base } ==> (reply matches Ok(path) ==> ((
        c matches Containing::Settled(Ok(_))) <==> within(path@, base@))),
        at.after(reply, c),
{
}

} // verus!
