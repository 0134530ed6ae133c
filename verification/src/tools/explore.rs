//! A tool that explores the directory tree under the current working
//! directory: either the immediate contents of a directory, or every file in
//! the subtree whose name matches a wildcard.
//!
//! The full listing is spooled to a scratch file; the tool returns its path
//! plus a short preview.

use super::scratch::SCRATCH_DIR;
use super::{
    contain, io_error_text, preview, previewed, Action, Child, Contained, Containing, Containment,
    Parameter, ParameterKind, PathError, Reply, ToolDefinition, Walked,
};
use crate::order::{sort, sorted};
use crate::paths::{display, lossy, lossy_text, relative, relative_to, within};
use crate::text::{join, join_lines, same, texts};
use vstd::prelude::*;
use vstd::string::*;

verus! {

/// The name under which a model calls [`Explore`].
pub const NAME: &'static str = "explore";

/// What a model is told about [`Explore`].
pub const DESCRIPTION: &'static str =
    "List a directory, or recursively find files matching a wildcard `pattern`. Output saved to a scratch file.";

/// Directories never worth descending into during a subtree walk.
pub const SKIP_DIRS: [&'static str; 4] = [".git", "target", "node_modules", SCRATCH_DIR];

/// How many listing lines to echo back inline.
pub const PREVIEW_LINES: usize = 40;

/// `glob::Pattern`, a compiled wildcard.
#[verifier::external_type_specification]
#[verifier::external_body]
pub struct ExPattern(glob::Pattern);

/// `glob::PatternError`, why a wildcard could not be compiled.
#[verifier::external_type_specification]
#[verifier::external_body]
pub struct ExPatternError(glob::PatternError);

/// The text from which a wildcard was compiled: what `glob::Pattern::as_str`
/// returns.
pub uninterp spec fn pattern_source(p: glob::Pattern) -> Seq<char>;

/// What `glob::PatternError` displays.
pub uninterp spec fn pattern_complaint(e: glob::PatternError) -> Seq<char>;

/// What `glob::Pattern::new` has to say against a wildcard; nothing if it
/// accepts it.
pub uninterp spec fn pattern_refusal(pattern: Seq<char>) -> Option<Seq<char>>;

/// What `glob::Pattern::matches` answers for a wildcard and a name.
pub uninterp spec fn pattern_matches(pattern: Seq<char>, name: Seq<char>) -> bool;

/// `glob::Pattern::new` compiles a wildcard, or says what is wrong with it.
/// Which of the two depends on the text alone, and a compiled wildcard keeps
/// the text.
pub assume_specification[ glob::Pattern::new ](pattern: &str) -> (r: Result<
    glob::Pattern,
    glob::PatternError,
>)
    ensures
        match r {
            Ok(p) => pattern_refusal(pattern@) is None && pattern_source(p) == pattern@,
            Err(e) => pattern_refusal(pattern@) == Some(pattern_complaint(e)),
        },
;

/// `glob::Pattern::matches` tells whether a name matches a compiled wildcard.
/// The answer depends on the text of the wildcard and on the name.
pub assume_specification[ glob::Pattern::matches ](p: &glob::Pattern, str: &str) -> (r: bool)
    ensures
        r == pattern_matches(pattern_source(*p), str@),
;

/// `glob::PatternError`'s `Display`.
#[verifier::external_body]
fn pattern_error_text(e: &glob::PatternError) -> (s: String)
    ensures
        s@ == pattern_complaint(*e),
{
    e.to_string()
}

/// Arguments accepted by [`Explore`].
#[derive(Debug)]
pub struct ExploreArgs {
    /// Directory to explore, relative to the working directory. Defaults to
    /// ".".
    pub path: Option<String>,
    /// Optional filename wildcard (e.g. "*.rs"). When set, the entire subtree
    /// under `path` is searched and every matching file is listed. When unset,
    /// only the immediate contents of `path` are listed.
    pub pattern: Option<String>,
}

/// What [`Explore`] returns to the model on success.
#[derive(Debug)]
pub struct ExploreOutput {
    /// Number of entries found.
    pub count: usize,
    /// Scratch file holding the full newline-separated listing.
    pub scratch_file: String,
    /// The first lines of that listing.
    pub preview: String,
}

/// Errors that [`Explore`] can produce.
#[allow(inconsistent_fields)]
#[derive(Debug)]
pub enum ExploreError {
    Cwd(std::io::Error),
    OutsideCwd(String),
    NotADirectory(String),
    BadPattern { pattern: String, source: glob::PatternError },
    Io { path: String, source: std::io::Error },
    Scratch(std::io::Error),
}

impl ExploreError {
    /// The message for this error, with the words of its cause.
    pub open spec fn text(self, cause: Seq<char>) -> Seq<char> {
        match self {
            ExploreError::Cwd(_) => "could not determine the current working directory: "@ + cause,
            ExploreError::OutsideCwd(p) => "'"@ + p@ + "' is outside the current working directory"@,
            ExploreError::NotADirectory(p) => "'"@ + p@ + "' is not a directory"@,
            ExploreError::BadPattern { pattern, source } => "invalid wildcard pattern '"@ + pattern@
                + "': "@ + pattern_complaint(source),
            ExploreError::Io { path, source: _ } => "failed while exploring '"@ + path@ + "': "@
                + cause,
            ExploreError::Scratch(_) => "could not write scratch file: "@ + cause,
        }
    }

    /// The message for this error, given the words of its cause.
    pub fn message_with(&self, cause: &str) -> (s: String)
        ensures
            s@ == self.text(cause@),
    {
        match self {
            ExploreError::Cwd(_) => String::from_str(
                "could not determine the current working directory: ",
            ).concat(cause),
            ExploreError::OutsideCwd(p) => String::from_str("'").concat(p.as_str()).concat(
                "' is outside the current working directory",
            ),
            ExploreError::NotADirectory(p) => String::from_str("'").concat(p.as_str()).concat(
                "' is not a directory",
            ),
            ExploreError::BadPattern { pattern, source } => String::from_str(
                "invalid wildcard pattern '",
            ).concat(pattern.as_str()).concat("': ").concat(pattern_error_text(source).as_str()),
            ExploreError::Io { path, source: _ } => String::from_str(
                "failed while exploring '",
            ).concat(path.as_str()).concat("': ").concat(cause),
            ExploreError::Scratch(_) => String::from_str("could not write scratch file: ").concat(
                cause,
            ),
        }
    }

    /// The message for this error.
    pub fn message(&self) -> (s: String)
        ensures
            exists|cause: Seq<char>| s@ == #[trigger] self.text(cause),
    {
        let cause = match self {
            ExploreError::Cwd(e) => io_error_text(e),
            ExploreError::Io { path: _, source } => io_error_text(source),
            ExploreError::Scratch(e) => io_error_text(e),
            _ => String::new(),
        };
        self.message_with(cause.as_str())
    }
}

impl From<PathError> for ExploreError {
    fn from(e: PathError) -> (r: Self) {
        match e {
            PathError::Cwd(io) => ExploreError::Cwd(io),
            PathError::OutsideCwd(p) => ExploreError::OutsideCwd(p),
            PathError::Resolve { path, source } => ExploreError::Io { path, source },
        }
    }
}

impl vstd::std_specs::convert::FromSpecImpl<PathError> for ExploreError {
    open spec fn obeys_from_spec() -> bool {
        true
    }

    open spec fn from_spec(e: PathError) -> Self {
        match e {
            PathError::Cwd(io) => ExploreError::Cwd(io),
            PathError::OutsideCwd(p) => ExploreError::OutsideCwd(p),
            PathError::Resolve { path, source } => ExploreError::Io { path, source },
        }
    }
}

/// Whether a directory of this name is never descended into.
pub open spec fn skip_dir(name: Seq<char>) -> bool {
    exists|i: int| 0 <= i < SKIP_DIRS@.len() && #[trigger] SKIP_DIRS@[i]@ == name
}

/// Whether a walk leaves out an entry and all below it: noisy or large
/// directories, but never the walk root itself, which has depth 0. The name is
/// none if it is not UTF-8.
pub fn is_skipped(depth: usize, is_dir: bool, name: Option<&str>) -> (r: bool)
    ensures
        r == (depth > 0 && is_dir && (name matches Some(n) && skip_dir(n@))),
{
    if depth == 0 || !is_dir {
        return false;
    }
    match name {
        None => false,
        Some(n) => {
            let mut i: usize = 0;
            while i < SKIP_DIRS.len()
                invariant
                    depth > 0,
                    is_dir,
                    name == Some(n),
                    i <= SKIP_DIRS@.len(),
                    forall|j: int| 0 <= j < i ==> SKIP_DIRS@[j]@ != n@,
                decreases SKIP_DIRS@.len() - i,
            {
                if same(SKIP_DIRS[i], n) {
                    return true;
                }
                i += 1;
            }
            false
        },
    }
}

/// The line for an entry of a directory: its name, with `/` after a directory.
pub open spec fn child_line(c: Child) -> Seq<char> {
    if c.is_dir == Some(true) {
        lossy(c.name@).push('/')
    } else {
        lossy(c.name@)
    }
}

/// The line for an entry of a subtree, if it is a file whose name matches the
/// wildcard: its path relative to the working directory.
pub open spec fn walked_line(e: Walked, pattern: Seq<char>, cwd: Seq<u8>) -> Option<Seq<char>> {
    if e.is_file && (e.name matches Some(n) && pattern_matches(pattern, n@)) {
        Some(lossy(relative(e.path@, cwd)))
    } else {
        None
    }
}

/// The lines for the entries of a directory, in ascending order.
pub open spec fn listed(children: Seq<Child>) -> Seq<Seq<char>> {
    sorted(children.map_values(|c: Child| child_line(c)))
}

/// The lines for the matching files of a subtree, in ascending order.
pub open spec fn found(entries: Seq<Walked>, pattern: Seq<char>, cwd: Seq<u8>) -> Seq<Seq<char>> {
    sorted(entries.filter_map(|e: Walked| walked_line(e, pattern, cwd)))
}

/// The lines for the entries of a directory, in ascending order.
pub fn list_children(children: &Vec<Child>) -> (out: Vec<String>)
    ensures
        texts(out@) == listed(children@),
{
    let ghost lines = children@.map_values(|c: Child| child_line(c));
    let mut out: Vec<String> = Vec::new();
    let mut i: usize = 0;
    while i < children.len()
        invariant
            i <= children@.len(),
            lines == children@.map_values(|c: Child| child_line(c)),
            texts(out@) == lines.take(i as int),
        decreases children@.len() - i,
    {
        let child = &children[i];
        let mut name = lossy_text(child.name.as_slice());
        match child.is_dir {
            Some(true) => name.push('/'),
            _ => {},
        }
        let ghost done = texts(out@);
        out.push(name);
        assert(texts(out@) =~= done.push(lines[i as int]));
        assert(lines.take(i + 1) =~= done.push(lines[i as int]));
        i += 1;
    }
    assert(lines.take(i as int) =~= lines);
    sort(&mut out);
    out
}

/// The lines for the matching files of a subtree, in ascending order.
pub fn find_matches(entries: &Vec<Walked>, pattern: &glob::Pattern, cwd: &[u8]) -> (out: Vec<
    String,
>)
    ensures
        texts(out@) == found(entries@, pattern_source(*pattern), cwd@),
{
    let ghost line = |e: Walked| walked_line(e, pattern_source(*pattern), cwd@);
    let mut out: Vec<String> = Vec::new();
    let mut i: usize = 0;
    assert(entries@.take(0).filter_map(line) =~= Seq::<Seq<char>>::empty());
    assert(texts(out@) =~= Seq::<Seq<char>>::empty());
    while i < entries.len()
        invariant
            i <= entries@.len(),
            line == (|e: Walked| walked_line(e, pattern_source(*pattern), cwd@)),
            texts(out@) == entries@.take(i as int).filter_map(line),
        decreases entries@.len() - i,
    {
        let entry = &entries[i];
        let ghost done = texts(out@);
        proof {
            entries@.lemma_filter_map_take_succ(line, i as int);
        }
        let matched = entry.is_file && match &entry.name {
            Some(n) => pattern.matches(n.as_str()),
            None => false,
        };
        if matched {
            out.push(display(relative_to(entry.path.as_slice(), cwd).as_slice()));
            assert(texts(out@) =~= done + seq![lossy(relative(entries@[i as int].path@, cwd@))]);
        } else {
            assert(texts(out@) =~= done + Seq::<Seq<char>>::empty());
        }
        i += 1;
    }
    assert(entries@.take(i as int) =~= entries@);
    sort(&mut out);
    out
}

/// Lists directory contents, or finds files in the subtree by wildcard.
#[derive(Debug, Clone, Copy, Default)]
pub struct Explore;

/// A call of [`Explore`] that waits for a reply.
#[allow(inconsistent_fields)]
#[derive(Debug)]
pub enum ExploreRun {
    Locating { at: Containment, pattern: Option<String> },
    Checking { target: Contained, pattern: Option<String> },
    Listing { target: Contained },
    Walking { target: Contained, pattern: glob::Pattern },
    Spooling { count: usize, listing: String },
}

/// Where a call of [`Explore`] stands.
#[derive(Debug)]
pub enum ExploreStep {
    Continue(ExploreRun),
    Done(Result<ExploreOutput, ExploreError>),
}

impl Explore {
    /// What a model is told about this tool.
    pub fn definition(&self) -> (d: ToolDefinition)
        ensures
            d.name@ == NAME@,
            d.description@ == DESCRIPTION@,
            d.parameters@.len() == 2,
            d.parameters@[0].is("path"@, ParameterKind::Text, "Directory, default '.'"@),
            d.parameters@[1].is("pattern"@, ParameterKind::Text, "Filename wildcard, e.g. *.rs"@),
            d.required@.len() == 0,
    {
        let mut parameters: Vec<Parameter> = Vec::new();
        parameters.push(Parameter::new("path", ParameterKind::Text, "Directory, default '.'"));
        parameters.push(
            Parameter::new("pattern", ParameterKind::Text, "Filename wildcard, e.g. *.rs"),
        );
        ToolDefinition {
            name: NAME.to_owned(),
            description: DESCRIPTION.to_owned(),
            parameters,
            required: Vec::new(),
        }
    }

    /// Starts to explore as `args` says.
    pub fn call(&self, args: ExploreArgs) -> (run: ExploreRun)
        ensures
            run matches ExploreRun::Locating { at: Containment::Base { requested }, pattern }
                && requested@ == (match args.path {
                Some(p) => p@,
                None => "."@,
            }) && pattern == args.pattern,
    {
        let at = match &args.path {
            Some(p) => contain(p.as_str()),
            None => contain("."),
        };
        ExploreRun::Locating { at, pattern: args.pattern }
    }
}

impl ExploreRun {
    /// The working directory, once it is known and still needed.
    pub open spec fn root(self) -> Option<Seq<u8>> {
        match self {
            ExploreRun::Locating { at, .. } => at.root(),
            ExploreRun::Checking { target, .. } => Some(target.root()),
            ExploreRun::Listing { target } => Some(target.root()),
            ExploreRun::Walking { target, .. } => Some(target.root()),
            ExploreRun::Spooling { .. } => None,
        }
    }

    /// What the run waits for.
    pub open spec fn asks(self, a: Action) -> bool {
        match self {
            ExploreRun::Locating { at, .. } => at.asks(a),
            ExploreRun::Checking { target, .. } => a matches Action::IsDir(p) && p@
                == target.place(),
            ExploreRun::Listing { target } => a matches Action::List(p) && p@ == target.place(),
            ExploreRun::Walking { target, .. } => a matches Action::Walk(p) && p@ == target.place(),
            ExploreRun::Spooling { listing, .. } => {
                &&& a matches Action::Spool { prefix, extension, contents }
                &&& prefix@ == "explore"@
                &&& extension@ == "txt"@
                &&& contents@ == listing@
            },
        }
    }

    /// How an existing directory is explored: without a wildcard, or with an
    /// empty one, by listing it; otherwise by walking it, if the wildcard
    /// compiles.
    pub open spec fn chosen(
        target: Contained,
        pattern: Option<String>,
        step: ExploreStep,
    ) -> bool {
        match pattern {
            Some(p) if p@.len() > 0 => match pattern_refusal(p@) {
                None => {
                    &&& step matches ExploreStep::Continue(
                        ExploreRun::Walking { target: t, pattern: compiled },
                    )
                    &&& t == target
                    &&& pattern_source(compiled) == p@
                },
                Some(complaint) => {
                    &&& step matches ExploreStep::Done(
                        Err(ExploreError::BadPattern { pattern: q, source }),
                    )
                    &&& q == p
                    &&& pattern_complaint(source) == complaint
                },
            },
            _ => step == ExploreStep::Continue(ExploreRun::Listing { target }),
        }
    }

    /// Whether `step` goes on to spool these lines.
    pub open spec fn spools(lines: Seq<Seq<char>>, step: ExploreStep) -> bool {
        &&& step matches ExploreStep::Continue(ExploreRun::Spooling { count, listing })
        &&& count == lines.len()
        &&& listing@ == join(lines, seq!['\n'])
    }

    /// The outcome of a reply.
    pub open spec fn after(self, reply: Reply, step: ExploreStep) -> bool {
        match (self, reply) {
            (ExploreRun::Locating { at, pattern }, Reply::Path(r)) => {
                ||| {
                    &&& step matches ExploreStep::Continue(
                        ExploreRun::Locating { at: next, pattern: p },
                    )
                    &&& at.after(r, Containing::Asking(next))
                    &&& p == pattern
                }
                ||| {
                    &&& step matches ExploreStep::Continue(
                        ExploreRun::Checking { target, pattern: p },
                    )
                    &&& at.after(r, Containing::Settled(Ok(target)))
                    &&& p == pattern
                }
                ||| exists|e: PathError| #[trigger]
                    at.after(r, Containing::Settled(Err(e))) && step == ExploreStep::Done(
                        Err(<ExploreError as vstd::std_specs::convert::FromSpec<PathError>>::from_spec(e)),
                    )
            },
            (ExploreRun::Checking { target, pattern }, Reply::Flag(is_dir)) => if is_dir {
                Self::chosen(target, pattern, step)
            } else {
                step == ExploreStep::Done(Err(ExploreError::NotADirectory(target.request())))
            },
            (ExploreRun::Listing { target }, Reply::Children(Err(source))) => {
                step == ExploreStep::Done(Err(ExploreError::Io { path: target.request(), source }))
            },
            (ExploreRun::Listing { .. }, Reply::Children(Ok(children))) => Self::spools(
                listed(children@),
                step,
            ),
            (ExploreRun::Walking { target, .. }, Reply::Walked(Err(source))) => {
                step == ExploreStep::Done(Err(ExploreError::Io { path: target.request(), source }))
            },
            (ExploreRun::Walking { target, pattern }, Reply::Walked(Ok(entries))) => Self::spools(
                found(entries@, pattern_source(pattern), target.root()),
                step,
            ),
            (ExploreRun::Spooling { .. }, Reply::Spooled(Err(e))) => step == ExploreStep::Done(
                Err(ExploreError::Scratch(e)),
            ),
            (ExploreRun::Spooling { count, listing }, Reply::Spooled(Ok(path))) => {
                &&& step matches ExploreStep::Done(Ok(o))
                &&& o.count == count
                &&& o.scratch_file@ == lossy(path@)
                &&& o.preview@ == previewed(listing@, PREVIEW_LINES as nat)
            },
            _ => step == ExploreStep::Continue(self),
        }
    }

    /// What the run waits for. A directory is looked at only inside the
    /// working directory.
    pub fn action(&self) -> (a: Action)
        ensures
            self.asks(a),
            a.reads() matches Some(p) ==> self.root() matches Some(base) && within(p, base),
    {
        match self {
            ExploreRun::Locating { at, .. } => at.action(),
            ExploreRun::Checking { target, .. } => Action::IsDir(target.path_copy()),
            ExploreRun::Listing { target } => Action::List(target.path_copy()),
            ExploreRun::Walking { target, .. } => Action::Walk(target.path_copy()),
            ExploreRun::Spooling { listing, .. } => Action::Spool {
                prefix: "explore".to_owned(),
                extension: "txt".to_owned(),
                contents: listing.clone(),
            },
        }
    }

    /// Picks how to explore an existing directory.
    fn pick(target: Contained, pattern: Option<String>) -> (step: ExploreStep)
        ensures
            Self::chosen(target, pattern, step),
    {
        match pattern {
            Some(p) => if p.as_str().is_empty() {
                ExploreStep::Continue(ExploreRun::Listing { target })
            } else {
                match glob::Pattern::new(p.as_str()) {
                    Ok(compiled) => ExploreStep::Continue(
                        ExploreRun::Walking { target, pattern: compiled },
                    ),
                    Err(source) => ExploreStep::Done(
                        Err(ExploreError::BadPattern { pattern: p, source }),
                    ),
                }
            },
            None => ExploreStep::Continue(ExploreRun::Listing { target }),
        }
    }

    /// Goes on to spool the lines.
    fn spool(lines: Vec<String>) -> (step: ExploreStep)
        ensures
            Self::spools(texts(lines@), step),
    {
        let count = lines.len();
        let listing = join_lines(&lines, count);
        assert(texts(lines@).take(count as int) =~= texts(lines@));
        ExploreStep::Continue(ExploreRun::Spooling { count, listing })
    }

    /// Goes on with a reply.
    pub fn resume(self, reply: Reply) -> (step: ExploreStep)
        ensures
            self.after(reply, step),
    {
        match (self, reply) {
            (ExploreRun::Locating { at, pattern }, Reply::Path(r)) => match at.resume(r) {
                Containing::Asking(next) => ExploreStep::Continue(
                    ExploreRun::Locating { at: next, pattern },
                ),
                Containing::Settled(Ok(target)) => ExploreStep::Continue(
                    ExploreRun::Checking { target, pattern },
                ),
                Containing::Settled(Err(e)) => ExploreStep::Done(Err(ExploreError::from(e))),
            },
            (ExploreRun::Checking { target, pattern }, Reply::Flag(is_dir)) => if is_dir {
                Self::pick(target, pattern)
            } else {
                ExploreStep::Done(Err(ExploreError::NotADirectory(target.requested())))
            },
            (ExploreRun::Listing { target }, Reply::Children(Err(source))) => ExploreStep::Done(
                Err(ExploreError::Io { path: target.requested(), source }),
            ),
            (ExploreRun::Listing { .. }, Reply::Children(Ok(children))) => Self::spool(
                list_children(&children),
            ),
            (ExploreRun::Walking { target, .. }, Reply::Walked(Err(source))) => ExploreStep::Done(
                Err(ExploreError::Io { path: target.requested(), source }),
            ),
            (ExploreRun::Walking { target, pattern }, Reply::Walked(Ok(entries))) => Self::spool(
                find_matches(&entries, &pattern, target.base()),
            ),
            (ExploreRun::Spooling { .. }, Reply::Spooled(Err(e))) => ExploreStep::Done(
                Err(ExploreError::Scratch(e)),
            ),
            (ExploreRun::Spooling { count, listing }, Reply::Spooled(Ok(path))) => {
                ExploreStep::Done(
                    Ok(
                        ExploreOutput {
                            count,
                            scratch_file: display(path.as_slice()),
                            preview: preview(listing.as_str(), PREVIEW_LINES),
                        },
                    ),
                )
            },
            (run, _) => ExploreStep::Continue(run),
        }
    }
}

/// A listing does not depend on the order in which the entries of the
/// directory are read.
pub proof fn law_listing_order_free(a: Seq<Child>, b: Seq<Child>)
    requires
        a.to_multiset() == b.to_multiset(),
    ensures
        listed(a) == listed(b),
{
    let f = |c: Child| child_line(c);
    crate::order::lemma_map_is_filter_map(a, f);
    crate::order::lemma_map_is_filter_map(b, f);
    crate::order::lemma_filter_map_permuted(a, b, |c: Child| Some(f(c)));
    crate::order::law_sorted_order_free(a.map_values(f), b.map_values(f));
}

/// What a search finds does not depend on the order in which the subtree is
/// walked.
pub proof fn law_search_order_free(
    a: Seq<Walked>,
    b: Seq<Walked>,
    pattern: Seq<char>,
    cwd: Seq<u8>,
)
    requires
        a.to_multiset() == b.to_multiset(),
    ensures
        found(a, pattern, cwd) == found(b, pattern, cwd),
{
    let f = |e: Walked| walked_line(e, pattern, cwd);
    crate::order::lemma_filter_map_permuted(a, b, f);
    crate::order::law_sorted_order_free(a.filter_map(f), b.filter_map(f));
}

/// A search lists exactly the files of the subtree whose names match.
pub proof fn law_search_finds_matches(
    entries: Seq<Walked>,
    pattern: Seq<char>,
    cwd: Seq<u8>,
    line: Seq<char>,
)
    ensures
        found(entries, pattern, cwd).contains(line) <==> exists|i: int|
            0 <= i < entries.len() && walked_line(#[trigger] entries[i], pattern, cwd) == Some(
                line,
            ),
{
    let f = |e: Walked| walked_line(e, pattern, cwd);
    let all = entries.filter_map(f);
    crate::order::law_sorted(all);
    vstd::seq_lib::to_multiset_contains(all, line);
    vstd::seq_lib::to_multiset_contains(sorted(all), line);
    if all.contains(line) {
        entries.lemma_filter_map_contains(f, line);
        let e = choose|e: Walked| #[trigger] entries.contains(e) && f(e) == Some(line);
        let i = choose|i: int| 0 <= i < entries.len() && entries[i] == e;
        assert(walked_line(entries[i], pattern, cwd) == Some(line));
    }
    if exists|i: int|
        0 <= i < entries.len() && walked_line(#[trigger] entries[i], pattern, cwd) == Some(line) {
        let i = choose|i: int|
            0 <= i < entries.len() && walked_line(#[trigger] entries[i], pattern, cwd) == Some(
                line,
            );
        crate::order::lemma_filter_map_keeps(entries, f, i);
    }
}

/// The scratch file of a call holds one line for each of the `count` entries,
/// provided that no line of the listing holds a line feed, none but the last
/// ends in a carriage return and the last is not empty.
pub proof fn law_listing_reads_back(
    entries: Seq<Seq<char>>,
    count: usize,
    listing: String,
)
    requires
        ExploreRun::spools(
            entries,
            ExploreStep::Continue(ExploreRun::Spooling { count, listing }),
        ),
        forall|i: int| 0 <= i < entries.len() ==> !(#[trigger] entries[i]).contains('\n'),
        forall|i: int|
            0 <= i < entries.len() - 1 ==> crate::text::chomp(#[trigger] entries[i]) == entries[i],
        entries.len() > 0 ==> entries.last().len() > 0,
    ensures
        crate::text::lines(listing@) == entries,
        count == crate::text::lines(listing@).len(),
{
    crate::text::law_lines_of_join(entries);
}

/// A path that resolves to a place outside the working directory is refused.
pub proof fn law_outside_refused(
    requested: String,
    base: Vec<u8>,
    path: Vec<u8>,
    pattern: Option<String>,
    step: ExploreStep,
)
    requires
        !within(path@, base@),
        (ExploreRun::Locating { at: Containment::Target { requested, base }, pattern }).after(
            Reply::Path(Ok(path)),
            step,
        ),
    ensures
        step == ExploreStep::Done(Err(ExploreError::OutsideCwd(requested))),
{
}

/// Once the working directory is known, a run keeps to it.
pub proof fn law_root_fixed(run: ExploreRun, reply: Reply, next: ExploreRun)
    requires
        run.after(reply, ExploreStep::Continue(next)),
        run.root() is Some,
        next.root() is Some,
    ensures
        next.root() == run.root(),
{
}

/// A call that lists a directory returns the number of its entries, where the
/// whole listing was spooled, and its first lines.
pub proof fn law_explore_returns_listing(
    target: Contained,
    children: Vec<Child>,
    second: ExploreRun,
    asked: Action,
    file: Vec<u8>,
    last: ExploreStep,
)
    requires
        (ExploreRun::Listing { target }).after(
            Reply::Children(Ok(children)),
            ExploreStep::Continue(second),
        ),
        second.asks(asked),
        second.after(Reply::Spooled(Ok(file)), last),
    ensures
        asked matches Action::Spool { contents, .. } && contents@ == join(
            listed(children@),
            seq!['\n'],
        ),
        last matches ExploreStep::Done(Ok(o)) && o.count == children@.len() && o.scratch_file@
            == lossy(file@) && o.preview@ == previewed(
            join(listed(children@), seq!['\n']),
            PREVIEW_LINES as nat,
        ),
{
    assert(second is Spooling);
    crate::order::law_sorted(children@.map_values(|c: Child| child_line(c)));
}

/// A call that searches a subtree returns the number of the files found, where
/// the whole list of them was spooled, and its first lines.
pub proof fn law_explore_returns_matches(
    target: Contained,
    pattern: glob::Pattern,
    entries: Vec<Walked>,
    second: ExploreRun,
    asked: Action,
    file: Vec<u8>,
    last: ExploreStep,
)
    requires
        (ExploreRun::Walking { target, pattern }).after(
            Reply::Walked(Ok(entries)),
            ExploreStep::Continue(second),
        ),
        second.asks(asked),
        second.after(Reply::Spooled(Ok(file)), last),
    ensures
        ({
            let matches = found(entries@, pattern_source(pattern), target.root());
            &&& asked matches Action::Spool { contents, .. }
            &&& contents@ == join(matches, seq!['\n'])
            &&& last matches ExploreStep::Done(Ok(o))
            &&& o.count == matches.len()
            &&& o.scratch_file@ == lossy(file@)
            &&& o.preview@ == previewed(join(matches, seq!['\n']), PREVIEW_LINES as nat)
        }),
{
    assert(second is Spooling);
}

/// The directories of these names, and no others, are never descended into.
pub proof fn law_skipped_names(name: Seq<char>)
    ensures
        skip_dir(name) <==> name == ".git"@ || name == "target"@ || name == "node_modules"@ || name
            == "ai-scratch"@,
{
    assert(SKIP_DIRS@[0]@ == ".git"@);
    assert(SKIP_DIRS@[1]@ == "target"@);
    assert(SKIP_DIRS@[2]@ == "node_modules"@);
    assert(SKIP_DIRS@[3]@ == "ai-scratch"@);
}

/// Whether a walked entry is a file whose own name matches the wildcard,
/// whatever directory it lies in.
pub open spec fn name_matches(e: Walked, pattern: Seq<char>) -> bool {
    e.is_file && (e.name matches Some(n) && pattern_matches(pattern, n@))
}

/// A search lists the path of every file whose name matches the wildcard,
/// relative to the working directory, and lists nothing else. In which
/// directory the file lies plays no part in the matching.
pub proof fn law_search_by_name(
    entries: Seq<Walked>,
    pattern: Seq<char>,
    cwd: Seq<u8>,
    line: Seq<char>,
)
    ensures
        found(entries, pattern, cwd).contains(line) <==> exists|i: int|
            {
                &&& 0 <= i < entries.len()
                &&& (#[trigger] entries[i]).is_file
                &&& entries[i].name matches Some(n) && pattern_matches(pattern, n@)
                &&& line == lossy(relative(entries[i].path@, cwd))
            },
{
    law_search_finds_matches(entries, pattern, cwd, line);
    if found(entries, pattern, cwd).contains(line) {
        let i = choose|i: int|
            0 <= i < entries.len() && walked_line(#[trigger] entries[i], pattern, cwd) == Some(
                line,
            );
        assert(entries[i].is_file);
    }
    if exists|i: int|
        {
            &&& 0 <= i < entries.len()
            &&& (#[trigger] entries[i]).is_file
            &&& entries[i].name matches Some(n) && pattern_matches(pattern, n@)
            &&& line == lossy(relative(entries[i].path@, cwd))
        } {
        let i = choose|i: int|
            {
                &&& 0 <= i < entries.len()
                &&& (#[trigger] entries[i]).is_file
                &&& entries[i].name matches Some(n) && pattern_matches(pattern, n@)
                &&& line == lossy(relative(entries[i].path@, cwd))
            };
        assert(walked_line(entries[i], pattern, cwd) == Some(line));
    }
}

/// One more entry adds its line to what a search finds if it is a file whose
/// name matches, and nothing otherwise, so that every matching file is counted
/// once. An empty subtree gives nothing.
pub proof fn law_search_counts_each(
    entries: Seq<Walked>,
    e: Walked,
    pattern: Seq<char>,
    cwd: Seq<u8>,
)
    ensures
        found(Seq::empty(), pattern, cwd).len() == 0,
        name_matches(e, pattern) ==> found(entries.push(e), pattern, cwd).to_multiset() == found(
            entries,
            pattern,
            cwd,
        ).to_multiset().insert(lossy(relative(e.path@, cwd))) && found(
            entries.push(e),
            pattern,
            cwd,
        ).len() == found(entries, pattern, cwd).len() + 1,
        !name_matches(e, pattern) ==> found(entries.push(e), pattern, cwd) == found(
            entries,
            pattern,
            cwd,
        ),
{
    let f = |e: Walked| walked_line(e, pattern, cwd);
    let none = Seq::<Walked>::empty();
    let before = entries.filter_map(f);
    let after = entries.push(e).filter_map(f);
    crate::order::law_sorted(none.filter_map(f));
    crate::order::law_sorted(before);
    crate::order::law_sorted(after);
    assert(entries.push(e).drop_last() =~= entries);
    if name_matches(e, pattern) {
        let line = lossy(relative(e.path@, cwd));
        assert(f(e) == Some(line));
        assert(after =~= before.push(line));
        vstd::seq_lib::to_multiset_build(before, line);
    } else {
        assert(f(e) is None);
        assert(after =~= before);
    }
}

/// The lines of a search and of a listing come in the order of their bytes.
pub proof fn law_lines_in_order(
    children: Seq<Child>,
    entries: Seq<Walked>,
    pattern: Seq<char>,
    cwd: Seq<u8>,
    i: int,
    j: int,
)
    ensures
        0 <= i <= j < found(entries, pattern, cwd).len() ==> crate::order::bytes_le(
            vstd::utf8::encode_utf8(found(entries, pattern, cwd)[i]),
            vstd::utf8::encode_utf8(found(entries, pattern, cwd)[j]),
        ),
        0 <= i <= j < listed(children).len() ==> crate::order::bytes_le(
            vstd::utf8::encode_utf8(listed(children)[i]),
            vstd::utf8::encode_utf8(listed(children)[j]),
        ),
{
    let a = entries.filter_map(|e: Walked| walked_line(e, pattern, cwd));
    let b = children.map_values(|c: Child| child_line(c));
    crate::order::law_sorted(a);
    crate::order::law_sorted(b);
    if 0 <= i <= j < found(entries, pattern, cwd).len() {
        crate::order::law_sorted_by_bytes(a, i, j);
    }
    if 0 <= i <= j < listed(children).len() {
        crate::order::law_sorted_by_bytes(b, i, j);
    }
}

/// A listing has one line for each entry of the directory: its name, and a `/`
/// behind it if the entry is known to be a directory. No entry is left out.
pub proof fn law_listing_of_entries(children: Seq<Child>)
    ensures
        listed(children).len() == children.len(),
        listed(children).to_multiset() == Seq::new(
            children.len(),
            |i: int|
                if children[i].is_dir == Some(true) {
                    lossy(children[i].name@) + seq!['/']
                } else {
                    lossy(children[i].name@)
                },
        ).to_multiset(),
{
    let lines = children.map_values(|c: Child| child_line(c));
    crate::order::law_sorted(lines);
    assert(lines =~~= Seq::new(
        children.len(),
        |i: int|
            if children[i].is_dir == Some(true) {
                lossy(children[i].name@) + seq!['/']
            } else {
                lossy(children[i].name@)
            },
    ));
}

/// A request that resolves to a place in the working directory is followed up
/// with the wildcard as it was given; one that cannot be resolved is an error
/// with the path as it was requested.
pub proof fn law_located(
    requested: String,
    base: Vec<u8>,
    pattern: Option<String>,
    reply: Result<Vec<u8>, std::io::Error>,
    step: ExploreStep,
)
    requires
        (ExploreRun::Locating { at: Containment::Target { requested, base }, pattern }).after(
            Reply::Path(reply),
            step,
        ),
    ensures
        reply matches Ok(path) ==> (within(path@, base@) ==> (step matches ExploreStep::Continue(
            ExploreRun::Checking { target, pattern: p },
        ) && target.place() == path@ && target.root() == base@ && target.request() == requested && p
            == pattern)),
        reply matches Ok(path) ==> (!within(path@, base@) ==> step == ExploreStep::Done(
            Err(ExploreError::OutsideCwd(requested)),
        )),
        reply matches Err(e) ==> step == ExploreStep::Done(
            Err(ExploreError::Io { path: requested, source: e }),
        ),
{
}

/// The working directory is kept as it was reported; if it is not known, that
/// is the error.
pub proof fn law_working_dir_known(
    requested: String,
    pattern: Option<String>,
    reply: Result<Vec<u8>, std::io::Error>,
    step: ExploreStep,
)
    requires
        (ExploreRun::Locating { at: Containment::Base { requested }, pattern }).after(
            Reply::Path(reply),
            step,
        ),
    ensures
        reply matches Ok(base) ==> step == ExploreStep::Continue(
            ExploreRun::Locating { at: Containment::Target { requested, base }, pattern },
        ),
        reply matches Err(e) ==> step == ExploreStep::Done(Err(ExploreError::Cwd(e))),
{
}

/// What is no directory is refused. A directory is listed if there is no
/// wildcard or an empty one, and otherwise walked with the wildcard as it was
/// given, unless that is refused; each time it is the resolved path that is
/// looked at.
pub proof fn law_directory_explored(
    target: Contained,
    pattern: Option<String>,
    asked: Action,
    is_dir: bool,
    step: ExploreStep,
    next: Action,
)
    requires
        (ExploreRun::Checking { target, pattern }).asks(asked),
        (ExploreRun::Checking { target, pattern }).after(Reply::Flag(is_dir), step),
        step matches ExploreStep::Continue(run) ==> run.asks(next),
    ensures
        asked matches Action::IsDir(p) && p@ == target.place(),
        !is_dir ==> step == ExploreStep::Done(Err(ExploreError::NotADirectory(target.request()))),
        is_dir && (pattern is None || (pattern matches Some(p) && p@.len() == 0)) ==> step
            == ExploreStep::Continue(ExploreRun::Listing { target }) && (next matches Action::List(p)
            && p@ == target.place()),
        is_dir ==> (pattern matches Some(p) ==> (p@.len() > 0 ==> (pattern_refusal(p@) is None ==> (
        step matches ExploreStep::Continue(ExploreRun::Walking { target: t, pattern: compiled })
            && t == target && pattern_source(compiled) == p@) && (next matches Action::Walk(d)
            && d@ == target.place())))),
        is_dir ==> (pattern matches Some(p) ==> (p@.len() > 0 ==> (pattern_refusal(
            p@,
        ) matches Some(complaint) ==> (step matches ExploreStep::Done(
            Err(ExploreError::BadPattern { pattern: q, source }),
        ) && q == p && pattern_complaint(source) == complaint)))),
{
}

/// The lines of a directory that was read, joined by line feeds, are spooled
/// under a name that starts with `explore` and ends in `txt`. Their number, the
/// file and the first 40 of them are returned; what goes wrong is passed on.
pub proof fn law_listing_passed_on(
    target: Contained,
    reply: Result<Vec<Child>, std::io::Error>,
    step: ExploreStep,
    asked: Action,
    spooled: Result<Vec<u8>, std::io::Error>,
    last: ExploreStep,
)
    requires
        (ExploreRun::Listing { target }).after(Reply::Children(reply), step),
        step matches ExploreStep::Continue(run) ==> run.asks(asked) && run.after(
            Reply::Spooled(spooled),
            last,
        ),
    ensures
        reply matches Err(e) ==> step == ExploreStep::Done(
            Err(ExploreError::Io { path: target.request(), source: e }),
        ),
        reply matches Ok(children) ==> (asked matches Action::Spool { prefix, extension, contents }
            && prefix@ == "explore"@ && extension@ == "txt"@ && contents@ == join(
            listed(children@),
            seq!['\n'],
        )),
        reply matches Ok(children) ==> (spooled matches Ok(file) ==> (
        last matches ExploreStep::Done(Ok(o)) && o.count == children@.len() && o.scratch_file@
            == lossy(file@) && o.preview@ == previewed(join(listed(children@), seq!['\n']), 40))),
        reply is Ok ==> (spooled matches Err(e) ==> last == ExploreStep::Done(
            Err(ExploreError::Scratch(e)),
        )),
{
    if let Ok(children) = reply {
        law_listing_of_entries(children@);
    }
}

/// The lines of a subtree that was walked, joined by line feeds, are spooled
/// under a name that starts with `explore` and ends in `txt`. Their number, the
/// file and the first 40 of them are returned; what goes wrong is passed on.
pub proof fn law_search_passed_on(
    target: Contained,
    pattern: glob::Pattern,
    reply: Result<Vec<Walked>, std::io::Error>,
    step: ExploreStep,
    asked: Action,
    spooled: Result<Vec<u8>, std::io::Error>,
    last: ExploreStep,
)
    requires
        (ExploreRun::Walking { target, pattern }).after(Reply::Walked(reply), step),
        step matches ExploreStep::Continue(run) ==> run.asks(asked) && run.after(
            Reply::Spooled(spooled),
            last,
        ),
    ensures
        reply matches Err(e) ==> step == ExploreStep::Done(
            Err(ExploreError::Io { path: target.request(), source: e }),
        ),
        reply matches Ok(entries) ==> (asked matches Action::Spool { prefix, extension, contents }
            && prefix@ == "explore"@ && extension@ == "txt"@ && contents@ == join(
            found(entries@, pattern_source(pattern), target.root()),
            seq!['\n'],
        )),
        reply matches Ok(entries) ==> (spooled matches Ok(file) ==> (
        last matches ExploreStep::Done(Ok(o)) && o.count == found(
            entries@,
            pattern_source(pattern),
            target.root(),
        ).len() && o.scratch_file@ == lossy(file@) && o.preview@ == previewed(
            join(found(entries@, pattern_source(pattern), target.root()), seq!['\n']),
            40,
        ))),
        reply is Ok ==> (spooled matches Err(e) ==> last == ExploreStep::Done(
            Err(ExploreError::Scratch(e)),
        )),
{
}

/// The message of an error holds the path or the wildcard as it was given, and
/// ends with the words of the cause where there is one.
pub proof fn law_explore_error_message(e: ExploreError, cause: Seq<char>)
    ensures
        e matches ExploreError::Cwd(_) ==> e.text(cause)
            == "could not determine the current working directory: "@ + cause,
        e matches ExploreError::OutsideCwd(p) ==> e.text(cause) == "'"@ + p@
            + "' is outside the current working directory"@,
        e matches ExploreError::NotADirectory(p) ==> e.text(cause) == "'"@ + p@
            + "' is not a directory"@,
        e matches ExploreError::BadPattern { pattern, source } ==> e.text(cause)
            == "invalid wildcard pattern '"@ + pattern@ + "': "@ + pattern_complaint(source),
        e matches ExploreError::Io { path, source: _ } ==> e.text(cause)
            == "failed while exploring '"@ + path@ + "': "@ + cause,
        e matches ExploreError::Scratch(_) ==> e.text(cause) == "could not write scratch file: "@
            + cause,
{
}

/// What a search returns is every file whose own name matches the wildcard, and
/// nothing else: each is shown by its path relative to the working directory.
pub proof fn law_matches_found(
    entries: Vec<Walked>,
    pattern: glob::Pattern,
    cwd: &[u8],
    out: Vec<String>,
    line: Seq<char>,
)
    requires
        call_ensures(find_matches, (&entries, &pattern, cwd), out),
    ensures
        (exists|k: int| 0 <= k < out@.len() && #[trigger] out@[k]@ == line) <==> exists|i: int|
            {
                &&& 0 <= i < entries@.len()
                &&& (#[trigger] entries@[i]).is_file
                &&& entries@[i].name matches Some(n) && pattern_matches(pattern_source(pattern), n@)
                &&& line == lossy(relative(entries@[i].path@, cwd@))
            },
{
    law_search_by_name(entries@, pattern_source(pattern), cwd@, line);
    let all = texts(out@);
    if exists|k: int| 0 <= k < out@.len() && #[trigger] out@[k]@ == line {
        let k = choose|k: int| 0 <= k < out@.len() && #[trigger] out@[k]@ == line;
        assert(all[k] == line);
        assert(all.contains(line));
    }
    if all.contains(line) {
        let k = choose|k: int| 0 <= k < all.len() && all[k] == line;
        assert(out@[k]@ == line);
    }
}

/// A listing returns one line for each entry that was read, and none else.
pub proof fn law_children_listed(children: Vec<Child>, out: Vec<String>)
    requires
        call_ensures(list_children, (&children,), out),
    ensures
        out@.len() == children@.len(),
        texts(out@).to_multiset() == Seq::new(
            children@.len(),
            |i: int|
                if children@[i].is_dir == Some(true) {
                    lossy(children@[i].name@) + seq!['/']
                } else {
                    lossy(children@[i].name@)
                },
        ).to_multiset(),
{
    law_listing_of_entries(children@);
    assert(texts(out@).len() == out@.len());
}

/// The path and the wildcard that a model gives are taken as they are, the path
/// being `.` if there is none. Only named directories below the start of a walk
/// are skipped.
pub proof fn law_call_started(
    args: ExploreArgs,
    run: ExploreRun,
    depth: usize,
    is_dir: bool,
    name: Option<&str>,
    skipped: bool,
)
    requires
        call_ensures(Explore::call, (&Explore, args), run),
        call_ensures(is_skipped, (depth, is_dir, name), skipped),
    ensures
        run matches ExploreRun::Locating { at: Containment::Base { requested }, pattern } && pattern
            == args.pattern && (args.path matches Some(p) ==> requested@ == p@) && (args.path is None
            ==> requested@ == "."@),
        skipped <==> depth > 0 && is_dir && (name matches Some(n) && (n@ == ".git"@ || n@
            == "target"@ || n@ == "node_modules"@ || n@ == "ai-scratch"@)),
{
    if let Some(n) = name {
        law_skipped_names(n@);
    }
}

/// A run goes from one reply to the next as the laws on its states say.
pub proof fn law_run_followed(run: ExploreRun, a: Action, reply: Reply, step: ExploreStep)
    requires
        call_ensures(ExploreRun::action, (&run,), a),
        call_ensures(ExploreRun::resume, (run, reply), step),
    ensures
        run.asks(a),
        run.after(reply, step),
        a.reads() matches Some(p) ==> (run.root() matches Some(base) && within(p, base)),
{
}

} // verus!
