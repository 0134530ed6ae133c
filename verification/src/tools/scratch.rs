//! The shared scratch directory where tools stash bulky output.
//!
//! It lives inside the current working directory, so files written here are
//! reachable by the tools, which are confined to it. It is wiped when the shell
//! starts and exits.

use crate::paths::{absolute, bytes, components, copy_all, join_path, joined, lossy, segments, within};
use crate::text::{decimal, push_decimal};
use vstd::prelude::*;
use vstd::string::*;
use vstd::utf8::encode_utf8;

verus! {

/// Scratch directory name, relative to the current working directory.
pub const SCRATCH_DIR: &'static str = "ai-scratch";

/// The path of the scratch directory.
pub fn dir() -> (r: Vec<u8>)
    ensures
        r@ == encode_utf8(SCRATCH_DIR@),
{
    bytes(SCRATCH_DIR)
}

/// The name of the `n`th scratch file with the given prefix and extension.
pub open spec fn file_name(prefix: Seq<char>, n: nat, extension: Seq<char>) -> Seq<char> {
    prefix + "-"@ + decimal(n) + "."@ + extension
}

/// The path of the `n`th scratch file, relative to the working directory.
pub open spec fn file_path(prefix: Seq<char>, n: nat, extension: Seq<char>) -> Seq<u8> {
    joined(encode_utf8(SCRATCH_DIR@), encode_utf8(file_name(prefix, n, extension)))
}

/// The path of the `n`th scratch file, relative to the working directory.
fn numbered_path(prefix: &str, n: u64, extension: &str) -> (p: Vec<u8>)
    ensures
        p@ == file_path(prefix@, n as nat, extension@),
{
    let mut name = String::from_str(prefix).concat("-");
    push_decimal(&mut name, n);
    let name = name.concat(".").concat(extension);
    join_path(dir().as_slice(), name.as_str().as_bytes())
}

/// Numbers the scratch files of one run of the program.
#[derive(Debug)]
pub struct Scratch {
    /// The number of the next file.
    pub counter: u64,
}

impl Scratch {
    pub fn new() -> (s: Scratch)
        ensures
            s.counter == 0,
    {
        Scratch { counter: 0 }
    }

    /// The number after `n`; the greatest one is followed by 0.
    pub open spec fn following(n: u64) -> u64 {
        if n == u64::MAX {
            0
        } else {
            (n + 1) as u64
        }
    }

    /// Takes the next number.
    fn draw(&mut self) -> (n: u64)
        ensures
            n == old(self).counter,
            final(self).counter == Self::following(old(self).counter),
    {
        let n = self.counter;
        self.counter = if n == u64::MAX {
            0
        } else {
            n + 1
        };
        n
    }
}

/// What the upkeep of the scratch directory asks of the file system.
#[derive(Debug)]
pub enum ScratchAction {
    /// Whether a path exists.
    Exists(Vec<u8>),
    /// To remove a directory with all its contents.
    RemoveAll(Vec<u8>),
    /// To create a directory unless it is there.
    CreateDir(Vec<u8>),
    /// To create and open a file, which must not be there.
    CreateNew(Vec<u8>),
    /// To write a text to the file that was opened last.
    Write(String),
}

/// The outcome of a [`ScratchAction`]: a flag for `Exists`, `Opened` for
/// `CreateNew`, `Finished` for the others.
#[derive(Debug)]
pub enum ScratchReply {
    Flag(bool),
    Opened,
    /// The file was not created; `exists` tells whether because it was there.
    NotOpened { exists: bool, error: std::io::Error },
    Finished(Result<(), std::io::Error>),
}

/// Writing a scratch file.
#[derive(Debug)]
pub enum WriteRun {
    MakingDir { prefix: String, extension: String, contents: String },
    Opening { prefix: String, extension: String, contents: String, path: Vec<u8> },
    Writing { path: Vec<u8>, contents: String },
}

/// Where writing a scratch file stands.
#[derive(Debug)]
pub enum WriteStep {
    Continue(WriteRun),
    Done(Result<Vec<u8>, std::io::Error>),
}

/// Starts to write `contents` to a uniquely named `<prefix>-<n>.<extension>`
/// file in the scratch directory. The run ends with the file's path relative
/// to the working directory.
pub fn write_unique(prefix: String, extension: String, contents: String) -> (run: WriteRun)
    ensures
        run == (WriteRun::MakingDir { prefix, extension, contents }),
{
    WriteRun::MakingDir { prefix, extension, contents }
}

impl WriteRun {
    /// What the run waits for.
    pub open spec fn asks(self, a: ScratchAction) -> bool {
        match self {
            WriteRun::MakingDir { .. } => a matches ScratchAction::CreateDir(d) && d@
                == encode_utf8(SCRATCH_DIR@),
            WriteRun::Opening { path, .. } => a matches ScratchAction::CreateNew(p) && p@ == path@,
            WriteRun::Writing { contents, .. } => a matches ScratchAction::Write(c) && c@
                == contents@,
        }
    }

    /// Whether `step` goes on to create the `n`th file.
    pub open spec fn opens(
        prefix: String,
        extension: String,
        contents: String,
        n: u64,
        step: WriteStep,
    ) -> bool {
        &&& step matches WriteStep::Continue(
            WriteRun::Opening { prefix: p, extension: e, contents: c, path },
        )
        &&& p == prefix
        &&& e == extension
        &&& c == contents
        &&& path@ == file_path(prefix@, n as nat, extension@)
    }

    /// The outcome of a reply: `before` and `after` are the next file number
    /// before and after it.
    pub open spec fn after(
        self,
        before: u64,
        reply: ScratchReply,
        step: WriteStep,
        after: u64,
    ) -> bool {
        match (self, reply) {
            (WriteRun::MakingDir { .. }, ScratchReply::Finished(Err(e))) => {
                step == WriteStep::Done(Err(e)) && after == before
            },
            (
                WriteRun::MakingDir { prefix, extension, contents },
                ScratchReply::Finished(Ok(_)),
            ) => {
                &&& Self::opens(prefix, extension, contents, before, step)
                &&& after == Scratch::following(before)
            },
            (WriteRun::Opening { path, contents, .. }, ScratchReply::Opened) => {
                step == WriteStep::Continue(WriteRun::Writing { path, contents }) && after == before
            },
            (
                WriteRun::Opening { prefix, extension, contents, .. },
                ScratchReply::NotOpened { exists, error },
            ) => if exists {
                &&& Self::opens(prefix, extension, contents, before, step)
                &&& after == Scratch::following(before)
            } else {
                step == WriteStep::Done(Err(error)) && after == before
            },
            (WriteRun::Writing { .. }, ScratchReply::Finished(Err(e))) => {
                step == WriteStep::Done(Err(e)) && after == before
            },
            (WriteRun::Writing { path, .. }, ScratchReply::Finished(Ok(_))) => {
                step == WriteStep::Done(Ok(path)) && after == before
            },
            _ => step == WriteStep::Continue(self) && after == before,
        }
    }

    /// What the run waits for. A file is only ever created anew, so no file is
    /// overwritten.
    pub fn action(&self) -> (a: ScratchAction)
        ensures
            self.asks(a),
    {
        match self {
            WriteRun::MakingDir { .. } => ScratchAction::CreateDir(dir()),
            WriteRun::Opening { path, .. } => ScratchAction::CreateNew(copy_all(path.as_slice())),
            WriteRun::Writing { contents, .. } => ScratchAction::Write(contents.clone()),
        }
    }

    /// Goes on with a reply.
    pub fn resume(self, scratch: &mut Scratch, reply: ScratchReply) -> (step: WriteStep)
        ensures
            self.after(old(scratch).counter, reply, step, final(scratch).counter),
    {
        match (self, reply) {
            (WriteRun::MakingDir { .. }, ScratchReply::Finished(Err(e))) => WriteStep::Done(Err(e)),
            (
                WriteRun::MakingDir { prefix, extension, contents },
                ScratchReply::Finished(Ok(_)),
            ) => {
                let path = numbered_path(prefix.as_str(), scratch.draw(), extension.as_str());
                WriteStep::Continue(WriteRun::Opening { prefix, extension, contents, path })
            },
            (WriteRun::Opening { path, contents, .. }, ScratchReply::Opened) => WriteStep::Continue(
                WriteRun::Writing { path, contents },
            ),
            (
                WriteRun::Opening { prefix, extension, contents, .. },
                ScratchReply::NotOpened { exists, error },
            ) => if exists {
                let path = numbered_path(prefix.as_str(), scratch.draw(), extension.as_str());
                WriteStep::Continue(WriteRun::Opening { prefix, extension, contents, path })
            } else {
                WriteStep::Done(Err(error))
            },
            (WriteRun::Writing { .. }, ScratchReply::Finished(Err(e))) => WriteStep::Done(Err(e)),
            (WriteRun::Writing { path, .. }, ScratchReply::Finished(Ok(_))) => WriteStep::Done(
                Ok(path),
            ),
            (run, _) => WriteStep::Continue(run),
        }
    }
}

/// Emptying the scratch directory.
#[derive(Debug)]
pub enum ResetRun {
    Checking,
    Removing,
    Creating,
}

/// Where emptying the scratch directory stands.
#[derive(Debug)]
pub enum ResetStep {
    Continue(ResetRun),
    Done(Result<(), std::io::Error>),
}

/// Starts to remove every scratch file and recreate an empty scratch
/// directory.
pub fn reset() -> (run: ResetRun)
    ensures
        run == ResetRun::Checking,
{
    ResetRun::Checking
}

impl ResetRun {
    /// What the run waits for.
    pub open spec fn asks(self, a: ScratchAction) -> bool {
        match self {
            ResetRun::Checking => a matches ScratchAction::Exists(d) && d@ == encode_utf8(
                SCRATCH_DIR@,
            ),
            ResetRun::Removing => a matches ScratchAction::RemoveAll(d) && d@ == encode_utf8(
                SCRATCH_DIR@,
            ),
            ResetRun::Creating => a matches ScratchAction::CreateDir(d) && d@ == encode_utf8(
                SCRATCH_DIR@,
            ),
        }
    }

    /// The outcome of a reply: `before` and `after` are the next file number
    /// before and after it.
    pub open spec fn after(
        self,
        before: u64,
        reply: ScratchReply,
        step: ResetStep,
        after: u64,
    ) -> bool {
        match (self, reply) {
            (ResetRun::Checking, ScratchReply::Flag(exists)) => {
                &&& step == ResetStep::Continue(
                    if exists {
                        ResetRun::Removing
                    } else {
                        ResetRun::Creating
                    },
                )
                &&& after == before
            },
            (ResetRun::Removing, ScratchReply::Finished(Ok(_))) => {
                step == ResetStep::Continue(ResetRun::Creating) && after == before
            },
            (ResetRun::Creating, ScratchReply::Finished(Ok(_))) => {
                step == ResetStep::Done(Ok(())) && after == 0
            },
            (ResetRun::Removing, ScratchReply::Finished(Err(e)))
            | (ResetRun::Creating, ScratchReply::Finished(Err(e))) => {
                step == ResetStep::Done(Err(e)) && after == before
            },
            _ => step == ResetStep::Continue(self) && after == before,
        }
    }

    /// What the run waits for.
    pub fn action(&self) -> (a: ScratchAction)
        ensures
            self.asks(a),
    {
        match self {
            ResetRun::Checking => ScratchAction::Exists(dir()),
            ResetRun::Removing => ScratchAction::RemoveAll(dir()),
            ResetRun::Creating => ScratchAction::CreateDir(dir()),
        }
    }

    /// Goes on with a reply.
    pub fn resume(self, scratch: &mut Scratch, reply: ScratchReply) -> (step: ResetStep)
        ensures
            self.after(old(scratch).counter, reply, step, final(scratch).counter),
    {
        match (self, reply) {
            (ResetRun::Checking, ScratchReply::Flag(exists)) => if exists {
                ResetStep::Continue(ResetRun::Removing)
            } else {
                ResetStep::Continue(ResetRun::Creating)
            },
            (ResetRun::Removing, ScratchReply::Finished(Ok(_))) => ResetStep::Continue(
                ResetRun::Creating,
            ),
            (ResetRun::Creating, ScratchReply::Finished(Ok(_))) => {
                scratch.counter = 0;
                ResetStep::Done(Ok(()))
            },
            (ResetRun::Removing, ScratchReply::Finished(Err(e))) => ResetStep::Done(Err(e)),
            (ResetRun::Creating, ScratchReply::Finished(Err(e))) => ResetStep::Done(Err(e)),
            (run, _) => ResetStep::Continue(run),
        }
    }
}

/// The bytes of a text start with `/` only if the text does.
pub proof fn lemma_absolute_text(t: Seq<char>)
    ensures
        absolute(encode_utf8(t)) ==> t.len() > 0 && t[0] == '/',
{
    if t.len() > 0 {
        vstd::utf8::encode_utf8_first_scalar(t);
        let b = encode_utf8(t)[0];
        if b == 47 {
            assert(47u8 & 0x7f == 47u8) by (bit_vector);
            vstd::utf8::char_u32_cast(t[0], 47);
            vstd::utf8::char_u32_cast('/', 47);
        }
    }
}

proof fn lemma_dir_relative()
    ensures
        !absolute(encode_utf8(SCRATCH_DIR@)),
        encode_utf8(SCRATCH_DIR@).len() > 0,
        encode_utf8(SCRATCH_DIR@).last() != crate::paths::SEPARATOR,
{
    reveal_strlit("ai-scratch");
    lemma_absolute_text(SCRATCH_DIR@);
    vstd::utf8::is_ascii_chars_encode_utf8(SCRATCH_DIR@);
    assert(SCRATCH_DIR@.last() == 'h');
}

/// The files of one prefix and extension that have different numbers have
/// different paths.
pub proof fn law_file_paths_distinct(
    prefix: Seq<char>,
    extension: Seq<char>,
    m: nat,
    n: nat,
)
    requires
        file_path(prefix, m, extension) == file_path(prefix, n, extension),
    ensures
        m == n,
{
    let a = file_name(prefix, m, extension);
    let b = file_name(prefix, n, extension);
    let x = encode_utf8(a);
    let y = encode_utf8(b);
    let d = encode_utf8(SCRATCH_DIR@);
    lemma_dir_relative();
    reveal_strlit("-");
    reveal_strlit(".");
    assert(a[0] == b[0]) by {
        if prefix.len() > 0 {
            assert(a[0] == prefix[0] && b[0] == prefix[0]);
        } else {
            assert(a[0] == '-' && b[0] == '-');
        }
    }
    assert(x[0] == y[0]) by {
        lemma_first_byte(a);
        lemma_first_byte(b);
    }
    assert(x.len() > 0 && y.len() > 0) by {
        lemma_first_byte(a);
        lemma_first_byte(b);
    }
    assert(x == y) by {
        if !absolute(x) {
            let k = (d + seq![crate::paths::SEPARATOR]).len() as int;
            assert((d + seq![crate::paths::SEPARATOR] + x).skip(k) =~= x);
            assert((d + seq![crate::paths::SEPARATOR] + y).skip(k) =~= y);
        }
    }
    vstd::utf8::encode_utf8_decode_utf8(a);
    vstd::utf8::encode_utf8_decode_utf8(b);
    assert(a == b);
    let from = prefix.len() as int + 1;
    assert(a.len() - 1 - extension.len() == from + decimal(m).len());
    assert(a.subrange(from, a.len() - 1 - extension.len()) =~= decimal(m));
    assert(b.subrange(from, b.len() - 1 - extension.len()) =~= decimal(n));
    crate::text::law_decimal_injective(m, n);
}

/// The first byte of a text is that of its first character.
proof fn lemma_first_byte(t: Seq<char>)
    requires
        t.len() > 0,
    ensures
        encode_utf8(t).len() > 0,
        encode_utf8(t)[0] == vstd::utf8::encode_scalar(t[0] as u32)[0],
{
}

/// A scratch file whose prefix does not start with `/` lies in the scratch
/// directory, and so in the working directory.
pub proof fn law_file_in_scratch_dir(
    base: Seq<u8>,
    prefix: Seq<char>,
    n: nat,
    extension: Seq<char>,
)
    requires
        absolute(base),
        prefix.len() > 0 ==> prefix[0] != '/',
    ensures
        within(
            joined(base, file_path(prefix, n, extension)),
            joined(base, encode_utf8(SCRATCH_DIR@)),
        ),
        within(joined(base, file_path(prefix, n, extension)), base),
{
    let name = encode_utf8(file_name(prefix, n, extension));
    let d = encode_utf8(SCRATCH_DIR@);
    let path = file_path(prefix, n, extension);
    lemma_dir_relative();
    lemma_name_relative(prefix, n, extension);
    assert(path == d + seq![crate::paths::SEPARATOR] + name);
    assert(path[0] == d[0]);
    crate::paths::law_joined_within(base, path);
    crate::paths::lemma_components_joined(base, path);
    crate::paths::lemma_components_joined(base, d);
    crate::paths::lemma_segments_concat(d, name);
    let inner = components(joined(base, path));
    let outer = components(joined(base, d));
    assert(inner =~= outer + segments(name));
    assert(outer =~= inner.subrange(0, outer.len() as int));
}

/// A run that writes a file takes a new number for each name that it tries,
/// and takes numbers for nothing else.
pub proof fn law_number_per_name(
    run: WriteRun,
    before: u64,
    reply: ScratchReply,
    step: WriteStep,
    after: u64,
)
    requires
        run.after(before, reply, step, after),
    ensures
        after != before ==> after == Scratch::following(before) && (step matches WriteStep::Continue(
            WriteRun::Opening { prefix, extension, contents: _, path },
        ) && path@ == file_path(prefix@, before as nat, extension@)),
        after == before ==> (step matches WriteStep::Continue(next) ==> next is Opening ==> next
            == run),
{
}

/// A text is written only to a file that was just created for it, and a path
/// is returned only when the writing has succeeded.
pub proof fn law_written_once_created(
    run: WriteRun,
    before: u64,
    reply: ScratchReply,
    step: WriteStep,
    after: u64,
)
    requires
        run.after(before, reply, step, after),
    ensures
        step matches WriteStep::Continue(WriteRun::Writing { path: p, contents: c }) ==> step
            == WriteStep::Continue(run) || (reply is Opened && (run matches WriteRun::Opening {
            path,
            contents,
            ..
        } && path == p && contents == c)),
        step matches WriteStep::Done(Ok(p)) ==> reply is Finished && (run matches WriteRun::Writing {
            path,
            ..
        } && path == p),
{
}

/// A scratch file whose prefix does not start with `/` is shown as its name in
/// the scratch directory, and that text has the path as its bytes.
pub proof fn law_file_path_shown(prefix: Seq<char>, n: nat, extension: Seq<char>)
    requires
        prefix.len() > 0 ==> prefix[0] != '/',
    ensures
        lossy(file_path(prefix, n, extension)) == SCRATCH_DIR@ + seq!['/'] + file_name(
            prefix,
            n,
            extension,
        ),
        encode_utf8(lossy(file_path(prefix, n, extension))) == file_path(prefix, n, extension),
{
    let name = file_name(prefix, n, extension);
    let t = SCRATCH_DIR@ + seq!['/'] + name;
    lemma_dir_relative();
    lemma_name_relative(prefix, n, extension);
    crate::paths::lemma_encode_concat(SCRATCH_DIR@ + seq!['/'], name);
    crate::paths::lemma_encode_concat(SCRATCH_DIR@, seq!['/']);
    vstd::utf8::is_ascii_chars_encode_utf8(seq!['/']);
    assert(encode_utf8(seq!['/']) =~= seq![crate::paths::SEPARATOR]);
    assert(encode_utf8(t) == file_path(prefix, n, extension));
    crate::paths::law_text_shown(t);
}

/// A file name is a relative path unless its prefix starts with `/`.
proof fn lemma_name_relative(prefix: Seq<char>, n: nat, extension: Seq<char>)
    requires
        prefix.len() > 0 ==> prefix[0] != '/',
    ensures
        !absolute(encode_utf8(file_name(prefix, n, extension))),
{
    let t = file_name(prefix, n, extension);
    reveal_strlit("-");
    lemma_absolute_text(t);
    if prefix.len() > 0 {
        assert(t[0] == prefix[0]);
    } else {
        assert(t[0] == '-');
    }
}

/// A scratch file is named after its prefix, its number in digits, and its
/// extension.
pub proof fn law_file_name(prefix: Seq<char>, n: nat, extension: Seq<char>)
    ensures
        exists|digits: Seq<char>|
            {
                &&& file_name(prefix, n, extension) == prefix + seq!['-'] + digits + seq!['.']
                    + extension
                &&& #[trigger] crate::text::number_read(digits) == n
                &&& digits.len() > 0
                &&& forall|i: int| 0 <= i < digits.len() ==> '0' <= #[trigger] digits[i] <= '9'
            },
{
    reveal_strlit("-");
    reveal_strlit(".");
    assert("-"@ =~= seq!['-']);
    assert("."@ =~= seq!['.']);
    crate::text::law_decimal_reads_back(n);
    assert(crate::text::number_read(decimal(n)) == n);
}

/// The scratch directory is made first, and nothing else is done if that fails.
/// Then the file that has the next number is created, and the number after it,
/// if there is one, is the next.
pub proof fn law_next_file_opened(
    prefix: String,
    extension: String,
    contents: String,
    before: u64,
    reply: Result<(), std::io::Error>,
    step: WriteStep,
    after: u64,
    first: ScratchAction,
    next: ScratchAction,
)
    requires
        (WriteRun::MakingDir { prefix, extension, contents }).asks(first),
        (WriteRun::MakingDir { prefix, extension, contents }).after(
            before,
            ScratchReply::Finished(reply),
            step,
            after,
        ),
        step matches WriteStep::Continue(run) ==> run.asks(next),
    ensures
        first matches ScratchAction::CreateDir(d) && d@ == encode_utf8("ai-scratch"@),
        reply matches Err(e) ==> step == WriteStep::Done(Err(e)) && after == before,
        reply is Ok ==> (step matches WriteStep::Continue(
            WriteRun::Opening { prefix: p, extension: x, contents: c, path: _ },
        ) && p == prefix && x == extension && c == contents) && (
        next matches ScratchAction::CreateNew(p) && p@ == file_path(
            prefix@,
            before as nat,
            extension@,
        )) && (before < u64::MAX ==> after == before + 1) && (before == u64::MAX ==> after == 0),
{
}

/// A file that was created gets the whole text. If its name was taken, the next
/// number is tried; any other failure is passed on.
pub proof fn law_taken_name_passed_over(
    prefix: String,
    extension: String,
    contents: String,
    path: Vec<u8>,
    before: u64,
    reply: ScratchReply,
    step: WriteStep,
    after: u64,
    next: ScratchAction,
)
    requires
        (WriteRun::Opening { prefix, extension, contents, path }).after(before, reply, step, after),
        step matches WriteStep::Continue(run) ==> run.asks(next),
    ensures
        reply == ScratchReply::Opened ==> step == WriteStep::Continue(
            WriteRun::Writing { path, contents },
        ) && (next matches ScratchAction::Write(t) && t@ == contents@) && after == before,
        reply matches ScratchReply::NotOpened { exists, error } ==> (!exists ==> step
            == WriteStep::Done(Err(error)) && after == before),
        reply matches ScratchReply::NotOpened { exists, error: _ } ==> (exists ==> (
        step matches WriteStep::Continue(
            WriteRun::Opening { prefix: p, extension: x, contents: c, path: _ },
        ) && p == prefix && x == extension && c == contents) && (
        next matches ScratchAction::CreateNew(p) && p@ == file_path(
            prefix@,
            before as nat,
            extension@,
        )) && (before < u64::MAX ==> after == before + 1) && (before == u64::MAX ==> after == 0)),
{
}

/// When the text is written, the path of the file is returned as it was
/// created; a failure is passed on.
pub proof fn law_written_path_returned(
    path: Vec<u8>,
    contents: String,
    before: u64,
    reply: Result<(), std::io::Error>,
    step: WriteStep,
    after: u64,
)
    requires
        (WriteRun::Writing { path, contents }).after(
            before,
            ScratchReply::Finished(reply),
            step,
            after,
        ),
    ensures
        reply is Ok ==> step == WriteStep::Done(Ok(path)),
        reply matches Err(e) ==> step == WriteStep::Done(Err(e)),
        after == before,
{
}

/// A reset removes the scratch directory if and only if it is there, makes it
/// anew, and only then starts to number from 0 again; a failure is passed on
/// and leaves the numbers alone.
pub proof fn law_reset_wipes(
    run: ResetRun,
    asked: ScratchAction,
    before: u64,
    reply: ScratchReply,
    step: ResetStep,
    after: u64,
)
    requires
        run.asks(asked),
        run.after(before, reply, step, after),
    ensures
        run == ResetRun::Checking ==> (asked matches ScratchAction::Exists(d) && d@ == encode_utf8(
            "ai-scratch"@,
        )),
        run == ResetRun::Removing ==> (asked matches ScratchAction::RemoveAll(d) && d@
            == encode_utf8("ai-scratch"@)),
        run == ResetRun::Creating ==> (asked matches ScratchAction::CreateDir(d) && d@
            == encode_utf8("ai-scratch"@)),
        run == ResetRun::Checking && reply == ScratchReply::Flag(true) ==> step
            == ResetStep::Continue(ResetRun::Removing),
        run == ResetRun::Checking && reply == ScratchReply::Flag(false) ==> step
            == ResetStep::Continue(ResetRun::Creating),
        run == ResetRun::Removing && reply == ScratchReply::Finished(Ok(())) ==> step
            == ResetStep::Continue(ResetRun::Creating),
        run == ResetRun::Creating && reply == ScratchReply::Finished(Ok(())) ==> step
            == ResetStep::Done(Ok(())) && after == 0,
        !(run is Checking) ==> (reply matches ScratchReply::Finished(Err(e)) ==> step
            == ResetStep::Done(Err(e))),
        !(step matches ResetStep::Done(Ok(_))) ==> after == before,
{
}

} // verus!
