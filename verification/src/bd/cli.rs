//! Command lines for the `bd` program, and what its outcomes mean.
use vstd::prelude::*;
use vstd::string::*;
use vstd::utf8::*;
use crate::bd::error::{BdError, BdErrorKind, BdErrorModel};
use crate::bd::types::IssueDetail;
use crate::path::{joined, lossy_text, lossy_utf8, FsPath};
use crate::text::{decimal, texts};

verus! {

/// A client that spawns a program, `bd` unless told otherwise.
#[derive(Debug, Clone, PartialEq, Eq)]
pub struct BdCli {
    program: String,
}

/// A program and its arguments, separated by blanks.
pub open spec fn command_text(program: Seq<char>, args: Seq<Seq<char>>) -> Seq<char>
    decreases args.len(),
{
    if args.len() == 0 {
        program
    } else {
        command_text(program, args.drop_last()).push(' ') + args.last()
    }
}

/// What a finished child process left behind: its exit status code, its output
/// and its error output. No code means that it was ended from outside.
pub struct ProcessOutput {
    pub success: bool,
    pub code: Option<i32>,
    pub stdout: Vec<u8>,
    pub stderr: Vec<u8>,
}

impl Default for BdCli {
    fn default() -> (res: BdCli)
        ensures
            res.program_view() == "bd"@,
    {
        BdCli::new()
    }
}

impl BdCli {
    /// The name of the program.
    pub closed spec fn program_view(&self) -> Seq<char> {
        self.program@
    }

    /// A client that spawns `bd`.
    pub fn new() -> (res: BdCli)
        ensures
            res.program_view() == "bd"@,
    {
        BdCli { program: String::from_str("bd") }
    }

    /// The program to spawn.
    pub fn program(&self) -> (res: &str)
        ensures
            res@ == self.program_view(),
    {
        self.program.as_str()
    }

    /// The command line as shown in errors.
    pub fn command_line(&self, args: &Vec<String>) -> (res: String)
        ensures
            res@ == command_text(self.program_view(), texts(args@)),
    {
        let mut s = self.program.clone();
        let ghost all = texts(args@);
        let mut i: usize = 0;
        assert(all.take(0) =~= Seq::<Seq<char>>::empty());
        while i < args.len()
            invariant
                i <= args.len(),
                all == texts(args@),
                s@ == command_text(self.program_view(), all.take(i as int)),
            decreases args.len() - i,
        {
            s.push(' ');
            s.append(args[i].as_str());
            assert(all.take(i + 1).drop_last() =~= all.take(i as int));
            assert(all.take(i + 1).last() == args@[i as int]@);
            i += 1;
        }
        assert(all.take(args@.len() as int) =~= all);
        s
    }

    /// The error of a program that could not be started.
    pub fn spawn_error(&self, args: &Vec<String>, detail: &str) -> (res: BdError)
        ensures
            res@ == (BdErrorModel {
                command: command_text(self.program_view(), texts(args@)),
                stderr: detail@,
                kind: BdErrorKind::Spawn,
            }),
    {
        BdError {
            command: self.command_line(args),
            stderr: String::from_str(detail),
            kind: BdErrorKind::Spawn,
        }
    }

    /// Judges a finished process: its output where it succeeded, and
    /// otherwise an error that carries its error output and status code.
    pub fn captured(&self, args: &Vec<String>, output: ProcessOutput) -> (res: Result<
        Vec<u8>,
        BdError,
    >)
        ensures
            output.success ==> res == Ok::<Vec<u8>, BdError>(output.stdout),
            !output.success ==> (res matches Err(e) && e@ == (BdErrorModel {
                command: command_text(self.program_view(), texts(args@)),
                stderr: lossy_utf8(output.stderr@),
                kind: BdErrorKind::NonZeroExit { code: output.code },
            })),
    {
        if output.success {
            Ok(output.stdout)
        } else {
            Err(
                BdError {
                    command: self.command_line(args),
                    stderr: lossy_text(&output.stderr),
                    kind: BdErrorKind::NonZeroExit { code: output.code },
                },
            )
        }
    }

    /// The error of an output that is no JSON of the expected type; it carries
    /// that output.
    pub fn parse_error(&self, args: &Vec<String>, stdout: &Vec<u8>) -> (res: BdError)
        ensures
            res@ == (BdErrorModel {
                command: command_text(self.program_view(), texts(args@)),
                stderr: lossy_utf8(stdout@),
                kind: BdErrorKind::Parse,
            }),
    {
        BdError {
            command: self.command_line(args),
            stderr: lossy_text(stdout),
            kind: BdErrorKind::Parse,
        }
    }

    /// The one issue of a `bd show` payload, or an error of kind
    /// [`BdErrorKind::Shape`] for any other number of them.
    pub fn shown(&self, args: &Vec<String>, details: Vec<IssueDetail>) -> (res: Result<
        IssueDetail,
        BdError,
    >)
        ensures
            details@.len() == 1 ==> res == Ok::<IssueDetail, BdError>(details@[0]),
            details@.len() != 1 ==> (res matches Err(e) && e@ == (BdErrorModel {
                command: command_text(self.program_view(), texts(args@)),
                stderr: "expected exactly one issue from 'bd show', got "@ + decimal(details@.len()),
                kind: BdErrorKind::Shape,
            })),
    {
        match IssueDetail::into_single(details) {
            Ok(one) => Ok(one),
            Err(e) => Err(
                BdError {
                    command: self.command_line(args),
                    stderr: e.message(),
                    kind: BdErrorKind::Shape,
                },
            ),
        }
    }
}

/// Where `bd` keeps a repository's exported issues, below the repository.
pub open spec fn issues_file_name() -> Seq<char> {
    ".beads/issues.jsonl"@
}

/// A path as an argument.
fn arg(p: &FsPath) -> (res: String)
    ensures
        res@ == lossy_utf8(p@),
{
    p.display()
}

fn word(s: &str) -> (res: String)
    ensures
        res@ == s@,
{
    String::from_str(s)
}

/// The arguments of `bd version`.
pub fn argv_version() -> (res: Vec<String>)
    ensures
        texts(res@) == seq!["version"@, "--json"@],
{
    let v = vec![word("version"), word("--json")];
    assert(texts(v@) =~= seq!["version"@, "--json"@]);
    v
}

/// The arguments of `bd init`, which runs in the directory it creates.
pub fn argv_init(prefix: &str) -> (res: Vec<String>)
    ensures
        texts(res@) == seq!["init"@, "--prefix"@, prefix@],
{
    let v = vec![word("init"), word("--prefix"), word(prefix)];
    assert(texts(v@) =~= seq!["init"@, "--prefix"@, prefix@]);
    v
}

/// The arguments of `bd repo add`.
pub fn argv_repo_add(hub: &FsPath, repo_path: &FsPath) -> (res: Vec<String>)
    ensures
        texts(res@) == seq!["-C"@, lossy_utf8(hub@), "repo"@, "add"@, lossy_utf8(repo_path@)],
{
    let v = vec![word("-C"), arg(hub), word("repo"), word("add"), arg(repo_path)];
    assert(texts(v@) =~= seq!["-C"@, lossy_utf8(hub@), "repo"@, "add"@, lossy_utf8(repo_path@)]);
    v
}

/// The arguments of `bd repo list`.
pub fn argv_repo_list(hub: &FsPath) -> (res: Vec<String>)
    ensures
        texts(res@) == seq!["-C"@, lossy_utf8(hub@), "repo"@, "list"@, "--json"@],
{
    let v = vec![word("-C"), arg(hub), word("repo"), word("list"), word("--json")];
    assert(texts(v@) =~= seq!["-C"@, lossy_utf8(hub@), "repo"@, "list"@, "--json"@]);
    v
}

/// The arguments of `bd export` to a given file.
pub fn argv_export_to(repo: &FsPath, output: &FsPath) -> (res: Vec<String>)
    ensures
        texts(res@) == seq!["-C"@, lossy_utf8(repo@), "export"@, "-o"@, lossy_utf8(output@)],
{
    let v = vec![word("-C"), arg(repo), word("export"), word("-o"), arg(output)];
    assert(texts(v@) =~= seq!["-C"@, lossy_utf8(repo@), "export"@, "-o"@, lossy_utf8(output@)]);
    v
}

/// The arguments of `bd export` to the repository's own issue file.
pub fn argv_export(repo: &FsPath) -> (res: Vec<String>)
    ensures
        texts(res@) == seq![
            "-C"@,
            lossy_utf8(repo@),
            "export"@,
            "-o"@,
            lossy_utf8(joined(repo@, encode_utf8(issues_file_name()))),
        ],
{
    argv_export_to(repo, &repo.join_text(".beads/issues.jsonl"))
}

/// The arguments of `bd repo sync`.
pub fn argv_repo_sync(hub: &FsPath) -> (res: Vec<String>)
    ensures
        texts(res@) == seq!["-C"@, lossy_utf8(hub@), "repo"@, "sync"@],
{
    let v = vec![word("-C"), arg(hub), word("repo"), word("sync")];
    assert(texts(v@) =~= seq!["-C"@, lossy_utf8(hub@), "repo"@, "sync"@]);
    v
}

/// The arguments of `bd ready`.
pub fn argv_ready(hub: &FsPath) -> (res: Vec<String>)
    ensures
        texts(res@) == seq!["-C"@, lossy_utf8(hub@), "ready"@, "--json"@],
{
    let v = vec![word("-C"), arg(hub), word("ready"), word("--json")];
    assert(texts(v@) =~= seq!["-C"@, lossy_utf8(hub@), "ready"@, "--json"@]);
    v
}

/// The arguments of `bd show`.
pub fn argv_show(hub: &FsPath, id: &str) -> (res: Vec<String>)
    ensures
        texts(res@) == seq!["-C"@, lossy_utf8(hub@), "show"@, id@, "--json"@],
{
    let v = vec![word("-C"), arg(hub), word("show"), word(id), word("--json")];
    assert(texts(v@) =~= seq!["-C"@, lossy_utf8(hub@), "show"@, id@, "--json"@]);
    v
}

/// The arguments of `bd search`.
pub fn argv_search(hub: &FsPath, query: &str) -> (res: Vec<String>)
    ensures
        texts(res@) == seq!["-C"@, lossy_utf8(hub@), "search"@, query@, "--json"@],
{
    let v = vec![word("-C"), arg(hub), word("search"), word(query), word("--json")];
    assert(texts(v@) =~= seq!["-C"@, lossy_utf8(hub@), "search"@, query@, "--json"@]);
    v
}

/// A command line starts with the program, and each argument stands behind a
/// blank after all those before it.
pub proof fn law_a_command_line_lists_its_arguments(
    program: Seq<char>,
    args: Seq<Seq<char>>,
    last: Seq<char>,
)
    ensures
        program.is_prefix_of(command_text(program, args)),
        command_text(program, seq![]) == program,
        command_text(program, args.push(last)) == command_text(program, args) + seq![' '] + last,
    decreases args.len(),
{
    assert(args.push(last).drop_last() =~= args);
    assert(command_text(program, args.push(last)) =~= command_text(program, args) + seq![' ']
        + last);
    if args.len() > 0 {
        let rest = args.drop_last();
        law_a_command_line_lists_its_arguments(program, rest, last);
        let whole = command_text(program, args);
        let shorter = command_text(program, rest);
        assert(program =~= shorter.take(program.len() as int));
        assert(program =~= whole.take(program.len() as int));
    } else {
        assert(program =~= program.take(program.len() as int));
    }
}

} // verus!
