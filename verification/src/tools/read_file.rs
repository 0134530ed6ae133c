//! A tool that reads a UTF-8 text file located in the current working
//! directory.

use super::{
    contain, io_error_text, Action, Contained, Containing, Containment, Parameter, ParameterKind,
    PathError, Reply, ToolDefinition,
};
use crate::paths::{display, lossy, within};
use vstd::prelude::*;
use vstd::string::*;

verus! {

/// The name under which a model calls [`ReadFile`].
pub const NAME: &'static str = "read_file";

/// Arguments accepted by [`ReadFile`].
#[derive(Debug)]
pub struct ReadFileArgs {
    /// Path to the file, relative to (or within) the current working directory.
    pub path: String,
}

/// What [`ReadFile`] returns to the model on success.
#[derive(Debug)]
pub struct ReadFileOutput {
    /// The resolved, absolute path that was read.
    pub path: String,
    /// The file's UTF-8 contents.
    pub contents: String,
}

/// Errors that [`ReadFile`] can produce.
#[derive(Debug)]
pub enum ReadFileError {
    Cwd(std::io::Error),
    OutsideCwd(String),
    NotAFile(String),
    Io { path: String, source: std::io::Error },
}

impl ReadFileError {
    /// The message for this error, with the words of its cause.
    pub open spec fn text(self, cause: Seq<char>) -> Seq<char> {
        match self {
            ReadFileError::Cwd(_) => "could not determine the current working directory: "@ + cause,
            ReadFileError::OutsideCwd(p) => "'"@ + p@
                + "' is outside the current working directory"@,
            ReadFileError::NotAFile(p) => "'"@ + p@ + "' is not a regular file"@,
            ReadFileError::Io { path, source: _ } => "could not read '"@ + path@ + "': "@ + cause,
        }
    }

    /// The message for this error, given the words of its cause.
    pub fn message_with(&self, cause: &str) -> (s: String)
        ensures
            s@ == self.text(cause@),
    {
        match self {
            ReadFileError::Cwd(_) => String::from_str(
                "could not determine the current working directory: ",
            ).concat(cause),
            ReadFileError::OutsideCwd(p) => String::from_str("'").concat(p.as_str()).concat(
                "' is outside the current working directory",
            ),
            ReadFileError::NotAFile(p) => String::from_str("'").concat(p.as_str()).concat(
                "' is not a regular file",
            ),
            ReadFileError::Io { path, source: _ } => String::from_str("could not read '").concat(
                path.as_str(),
            ).concat("': ").concat(cause),
        }
    }

    /// The message for this error.
    pub fn message(&self) -> (s: String)
        ensures
            exists|cause: Seq<char>| s@ == #[trigger] self.text(cause),
    {
        let cause = match self {
            ReadFileError::Cwd(e) => io_error_text(e),
            ReadFileError::Io { path: _, source } => io_error_text(source),
            _ => String::new(),
        };
        self.message_with(cause.as_str())
    }
}

impl From<PathError> for ReadFileError {
    /// A path that does not exist has no canonical form; that is an I/O error.
    fn from(e: PathError) -> (r: Self) {
        match e {
            PathError::Cwd(io) => ReadFileError::Cwd(io),
            PathError::OutsideCwd(p) => ReadFileError::OutsideCwd(p),
            PathError::Resolve { path, source } => ReadFileError::Io { path, source },
        }
    }
}

impl vstd::std_specs::convert::FromSpecImpl<PathError> for ReadFileError {
    open spec fn obeys_from_spec() -> bool {
        true
    }

    open spec fn from_spec(e: PathError) -> Self {
        match e {
            PathError::Cwd(io) => ReadFileError::Cwd(io),
            PathError::OutsideCwd(p) => ReadFileError::OutsideCwd(p),
            PathError::Resolve { path, source } => ReadFileError::Io { path, source },
        }
    }
}

/// Reads a text file located anywhere within the current working directory.
#[derive(Debug, Clone, Copy, Default)]
pub struct ReadFile;

/// A call of [`ReadFile`] that waits for a reply.
#[derive(Debug)]
pub enum ReadFileRun {
    Locating(Containment),
    Checking(Contained),
    Reading(Contained),
}

/// Where a call of [`ReadFile`] stands.
#[derive(Debug)]
pub enum ReadFileStep {
    Continue(ReadFileRun),
    Done(Result<ReadFileOutput, ReadFileError>),
}

impl ReadFile {
    /// What a model is told about this tool.
    pub fn definition(&self) -> (d: ToolDefinition)
        ensures
            d.name@ == NAME@,
            d.description@ == "Read a text file in the working directory."@,
            d.parameters@.len() == 1,
            d.parameters@[0].is("path"@, ParameterKind::Text, "File path, e.g. src/main.rs"@),
            crate::text::texts(d.required@) == seq!["path"@],
    {
        let mut parameters: Vec<Parameter> = Vec::new();
        parameters.push(
            Parameter::new("path", ParameterKind::Text, "File path, e.g. src/main.rs"),
        );
        let mut required: Vec<String> = Vec::new();
        required.push("path".to_owned());
        assert(crate::text::texts(required@) =~= seq!["path"@]);
        ToolDefinition {
            name: NAME.to_owned(),
            description: "Read a text file in the working directory.".to_owned(),
            parameters,
            required,
        }
    }

    /// Starts to read the file that `args` names.
    pub fn call(&self, args: ReadFileArgs) -> (run: ReadFileRun)
        ensures
            run matches ReadFileRun::Locating(Containment::Base { requested })
                && requested@ == args.path@,
    {
        ReadFileRun::Locating(contain(args.path.as_str()))
    }
}

impl ReadFileRun {
    /// The working directory, once it is known.
    pub open spec fn root(self) -> Option<Seq<u8>> {
        match self {
            ReadFileRun::Locating(at) => at.root(),
            ReadFileRun::Checking(t) | ReadFileRun::Reading(t) => Some(t.root()),
        }
    }

    /// What the run waits for.
    pub open spec fn asks(self, a: Action) -> bool {
        match self {
            ReadFileRun::Locating(at) => at.asks(a),
            ReadFileRun::Checking(t) => a matches Action::IsFile(p) && p@ == t.place(),
            ReadFileRun::Reading(t) => a matches Action::ReadText(p) && p@ == t.place(),
        }
    }

    /// The outcome of a reply.
    pub open spec fn after(self, reply: Reply, step: ReadFileStep) -> bool {
        match (self, reply) {
            (ReadFileRun::Locating(at), Reply::Path(r)) => {
                ||| step matches ReadFileStep::Continue(ReadFileRun::Locating(next))
                    && at.after(r, Containing::Asking(next))
                ||| step matches ReadFileStep::Continue(ReadFileRun::Checking(t)) && at.after(
                    r,
                    Containing::Settled(Ok(t)),
                )
                ||| exists|e: PathError| #[trigger]
                    at.after(r, Containing::Settled(Err(e))) && step == ReadFileStep::Done(
                        Err(<ReadFileError as vstd::std_specs::convert::FromSpec<PathError>>::from_spec(e)),
                    )
            },
            (ReadFileRun::Checking(t), Reply::Flag(is_file)) => if is_file {
                step == ReadFileStep::Continue(ReadFileRun::Reading(t))
            } else {
                step == ReadFileStep::Done(Err(ReadFileError::NotAFile(t.request())))
            },
            (ReadFileRun::Reading(t), Reply::Text(Err(source))) => step == ReadFileStep::Done(
                Err(ReadFileError::Io { path: t.request(), source }),
            ),
            (ReadFileRun::Reading(t), Reply::Text(Ok(contents))) => {
                &&& step matches ReadFileStep::Done(Ok(out))
                &&& out.path@ == lossy(t.place())
                &&& out.contents == contents
            },
            _ => step == ReadFileStep::Continue(self),
        }
    }

    /// What the run waits for. A file is looked at only inside the working
    /// directory.
    pub fn action(&self) -> (a: Action)
        ensures
            self.asks(a),
            a.reads() matches Some(p) ==> self.root() matches Some(base) && within(p, base),
    {
        match self {
            ReadFileRun::Locating(at) => at.action(),
            ReadFileRun::Checking(t) => Action::IsFile(t.path_copy()),
            ReadFileRun::Reading(t) => Action::ReadText(t.path_copy()),
        }
    }

    /// Goes on with a reply.
    pub fn resume(self, reply: Reply) -> (step: ReadFileStep)
        ensures
            self.after(reply, step),
    {
        match (self, reply) {
            (ReadFileRun::Locating(at), Reply::Path(r)) => match at.resume(r) {
                Containing::Asking(next) => ReadFileStep::Continue(ReadFileRun::Locating(next)),
                Containing::Settled(Ok(t)) => ReadFileStep::Continue(ReadFileRun::Checking(t)),
                Containing::Settled(Err(e)) => ReadFileStep::Done(Err(ReadFileError::from(e))),
            },
            (ReadFileRun::Checking(t), Reply::Flag(is_file)) => if is_file {
                ReadFileStep::Continue(ReadFileRun::Reading(t))
            } else {
                ReadFileStep::Done(Err(ReadFileError::NotAFile(t.requested())))
            },
            (ReadFileRun::Reading(t), Reply::Text(Err(source))) => ReadFileStep::Done(
                Err(ReadFileError::Io { path: t.requested(), source }),
            ),
            (ReadFileRun::Reading(t), Reply::Text(Ok(contents))) => ReadFileStep::Done(
                Ok(ReadFileOutput { path: display(t.path()), contents }),
            ),
            (run, _) => ReadFileStep::Continue(run),
        }
    }
}

/// A path that resolves to a place outside the working directory is refused.
pub proof fn law_outside_refused(
    requested: String,
    base: Vec<u8>,
    path: Vec<u8>,
    step: ReadFileStep,
)
    requires
        !within(path@, base@),
        ReadFileRun::Locating(Containment::Target { requested, base }).after(
            Reply::Path(Ok(path)),
            step,
        ),
    ensures
        step == ReadFileStep::Done(Err(ReadFileError::OutsideCwd(requested))),
{
}

/// Once the working directory is known, a run keeps to it.
pub proof fn law_root_fixed(run: ReadFileRun, reply: Reply, next: ReadFileRun)
    requires
        run.after(reply, ReadFileStep::Continue(next)),
        run.root() is Some,
    ensures
        next.root() == run.root(),
{
}

/// A call that meets no refusal and no failure returns the contents of the file
/// that the requested path resolves to, which lies in the working directory.
pub proof fn law_read_returns_contents(
    requested: String,
    base: Vec<u8>,
    path: Vec<u8>,
    contents: String,
    second: ReadFileRun,
    third: ReadFileRun,
    fourth: ReadFileRun,
    last: ReadFileStep,
)
    requires
        ReadFileRun::Locating(Containment::Base { requested }).after(
            Reply::Path(Ok(base)),
            ReadFileStep::Continue(second),
        ),
        second.after(Reply::Path(Ok(path)), ReadFileStep::Continue(third)),
        third.after(Reply::Flag(true), ReadFileStep::Continue(fourth)),
        fourth.after(Reply::Text(Ok(contents)), last),
    ensures
        within(path@, base@),
        last matches ReadFileStep::Done(Ok(out)) && out.contents == contents && out.path@ == lossy(
            path@,
        ),
{
    assert(second == ReadFileRun::Locating(Containment::Target { requested, base }));
    assert(third is Checking);
    assert(fourth is Reading);
}

/// A request that resolves to a place in the working directory is followed up,
/// whatever the place is called; one that cannot be resolved is an I/O error
/// with the path as it was requested.
pub proof fn law_located(
    requested: String,
    base: Vec<u8>,
    reply: Result<Vec<u8>, std::io::Error>,
    step: ReadFileStep,
)
    requires
        ReadFileRun::Locating(Containment::Target { requested, base }).after(
            Reply::Path(reply),
            step,
        ),
    ensures
        reply matches Ok(path) ==> (within(path@, base@) ==> (step matches ReadFileStep::Continue(
            ReadFileRun::Checking(k),
        ) && k.place() == path@ && k.root() == base@ && k.request() == requested)),
        reply matches Ok(path) ==> (!within(path@, base@) ==> step == ReadFileStep::Done(
            Err(ReadFileError::OutsideCwd(requested)),
        )),
        reply matches Err(e) ==> step == ReadFileStep::Done(
            Err(ReadFileError::Io { path: requested, source: e }),
        ),
{
}

/// The working directory is kept as it was reported; if it is not known, that
/// is the error.
pub proof fn law_working_dir_known(
    requested: String,
    reply: Result<Vec<u8>, std::io::Error>,
    step: ReadFileStep,
)
    requires
        ReadFileRun::Locating(Containment::Base { requested }).after(Reply::Path(reply), step),
    ensures
        reply matches Ok(base) ==> step == ReadFileStep::Continue(
            ReadFileRun::Locating(Containment::Target { requested, base }),
        ),
        reply matches Err(e) ==> step == ReadFileStep::Done(Err(ReadFileError::Cwd(e))),
{
}

/// Every regular file in the working directory is read, and nothing else is:
/// the run asks whether the resolved path is a regular file, and goes on to
/// read that very path if and only if it is.
pub proof fn law_regular_files_read(t: Contained, asked: Action, is_file: bool, step: ReadFileStep)
    requires
        ReadFileRun::Checking(t).asks(asked),
        ReadFileRun::Checking(t).after(Reply::Flag(is_file), step),
    ensures
        asked matches Action::IsFile(p) && p@ == t.place(),
        is_file ==> step == ReadFileStep::Continue(ReadFileRun::Reading(t)),
        !is_file ==> step == ReadFileStep::Done(Err(ReadFileError::NotAFile(t.request()))),
{
}

/// The text of the file is returned whole and unchanged, with the resolved
/// path; a text that cannot be read is an I/O error.
pub proof fn law_whole_text_returned(
    t: Contained,
    asked: Action,
    reply: Result<String, std::io::Error>,
    step: ReadFileStep,
)
    requires
        ReadFileRun::Reading(t).asks(asked),
        ReadFileRun::Reading(t).after(Reply::Text(reply), step),
    ensures
        asked matches Action::ReadText(p) && p@ == t.place(),
        reply matches Ok(contents) ==> (step matches ReadFileStep::Done(Ok(out)) && out.contents@
            == contents@ && out.path@ == lossy(t.place())),
        reply matches Err(e) ==> step == ReadFileStep::Done(
            Err(ReadFileError::Io { path: t.request(), source: e }),
        ),
{
}

/// The message of an error holds the path as it was requested, and ends with
/// the words of the cause where there is one.
pub proof fn law_read_error_message(e: ReadFileError, cause: Seq<char>)
    ensures
        e matches ReadFileError::Cwd(_) ==> e.text(cause)
            == "could not determine the current working directory: "@ + cause,
        e matches ReadFileError::OutsideCwd(p) ==> e.text(cause) == "'"@ + p@
            + "' is outside the current working directory"@,
        e matches ReadFileError::NotAFile(p) ==> e.text(cause) == "'"@ + p@
            + "' is not a regular file"@,
        e matches ReadFileError::Io { path, source: _ } ==> e.text(cause) == "could not read '"@
            + path@ + "': "@ + cause,
{
}

/// The path that a model gives is looked for as it is. A regular file in the
/// working directory is read, and its text is returned whole.
pub proof fn law_file_read(
    args: ReadFileArgs,
    first: ReadFileRun,
    t: Contained,
    contents: String,
    checked: ReadFileStep,
    last: ReadFileStep,
)
    requires
        call_ensures(ReadFile::call, (&ReadFile, args), first),
        call_ensures(
            ReadFileRun::resume,
            (ReadFileRun::Checking(t), Reply::Flag(true)),
            checked,
        ),
        checked matches ReadFileStep::Continue(run) ==> call_ensures(
            ReadFileRun::resume,
            (run, Reply::Text(Ok(contents))),
            last,
        ),
    ensures
        first matches ReadFileRun::Locating(Containment::Base { requested }) && requested@
            == args.path@,
        last matches ReadFileStep::Done(Ok(out)) && out.contents@ == contents@ && out.path@
            == lossy(t.place()),
{
}

} // verus!
