use vstd::prelude::*;

use crate::domain::{ComputeError, ExecutionResult, SandboxError};
use crate::text::{
    chars_of, contains, contains_str, lines_of, nonempty_lines, push_char, push_decimal,
    push_signed, push_str, signed_decimal, decimal, sorted, sort_strings, starts_with,
    string_of_range,
    trim, trimmed, views,
};

verus! {

/// Where the container keeps the sandbox's source tree.
pub const WORKDIR: &'static str = "/src";

/// The container path of `path`: an absolute path as it is, a relative one under `/src`.
pub open spec fn container_path(path: Seq<char>) -> Seq<char> {
    if path.len() > 0 && path[0] == '/' {
        path
    } else {
        "/src/"@ + path
    }
}

pub fn resolve_container_path(path: &str) -> (r: String)
    ensures
        r@ == container_path(path@),
{
    let v = chars_of(path);
    if v.len() > 0 && v[0] == '/' {
        path.to_owned()
    } else {
        let mut r = "/src/".to_owned();
        push_str(&mut r, path);
        r
    }
}

/// The inside of a single-quoted shell word for `s`: each `'` written as `'"'"'`.
pub open spec fn quoted_body(s: Seq<char>) -> Seq<char>
    decreases s.len(),
{
    if s.len() == 0 {
        Seq::empty()
    } else if s.last() == '\'' {
        quoted_body(s.drop_last()) + "'\"'\"'"@
    } else {
        quoted_body(s.drop_last()).push(s.last())
    }
}

/// `s` as one single-quoted shell word.
pub open spec fn escaped(s: Seq<char>) -> Seq<char> {
    seq!['\''] + quoted_body(s) + seq!['\'']
}

/// Quotes `value` for the shell so that it stands as one word, whatever it holds.
pub fn shell_escape(value: &str) -> (r: String)
    ensures
        r@ == escaped(value@),
{
    let v = chars_of(value);
    let mut r = "'".to_owned();
    proof {
        reveal_strlit("'");
        assert(v@.take(0) =~= Seq::<char>::empty());
        assert(r@ =~= seq!['\''] + quoted_body(v@.take(0)));
    }
    let mut i: usize = 0;
    while i < v.len()
        invariant
            i <= v@.len(),
            v@ == value@,
            r@ == seq!['\''] + quoted_body(v@.take(i as int)),
        decreases v@.len() - i,
    {
        assert(v@.take(i + 1).drop_last() =~= v@.take(i as int));
        if v[i] == '\'' {
            push_str(&mut r, "'\"'\"'");
        } else {
            push_char(&mut r, v[i]);
        }
        i = i + 1;
        assert(r@ =~= seq!['\''] + quoted_body(v@.take(i as int)));
    }
    assert(v@.take(v@.len() as int) =~= v@);
    push_char(&mut r, '\'');
    assert(r@ =~= escaped(value@));
    r
}

/// The shell text that the `bash` tool runs: `cd <dir> && <command>` when a working
/// directory is given, then wrapped in `timeout <t>s sh -c <...>` when a timeout is given.
pub open spec fn bash_command(command: Seq<char>, workdir: Option<Seq<char>>, timeout: Option<u64>) -> Seq<char> {
    let inner = match workdir {
        Some(w) => "cd "@ + escaped(container_path(w)) + " && "@ + command,
        None => command,
    };
    match timeout {
        Some(t) => "timeout "@ + decimal(t as nat) + "s sh -c "@ + escaped(inner),
        None => inner,
    }
}

pub fn build_bash_command(command: &str, workdir: Option<&str>, timeout: Option<u64>) -> (r: String)
    ensures
        r@ == bash_command(command@, match workdir { Some(w) => Some(w@), None => None }, timeout),
{
    let inner = match workdir {
        Some(w) => {
            let p = resolve_container_path(w);
            let q = shell_escape(p.as_str());
            let mut s = "cd ".to_owned();
            push_str(&mut s, q.as_str());
            push_str(&mut s, " && ");
            push_str(&mut s, command);
            s
        },
        None => command.to_owned(),
    };
    match timeout {
        Some(t) => {
            let mut s = "timeout ".to_owned();
            push_decimal(&mut s, t);
            push_str(&mut s, "s sh -c ");
            let q = shell_escape(inner.as_str());
            push_str(&mut s, q.as_str());
            s
        },
        None => inner,
    }
}

/// The shell text that the `grep` tool runs.
pub open spec fn grep_command(pattern: Seq<char>, path: Seq<char>, file_glob: Option<Seq<char>>) -> Seq<char> {
    let head = match file_glob {
        Some(g) => "grep -R -n"@ + " --include="@ + escaped(g),
        None => "grep -R -n"@,
    };
    head + " -- "@ + escaped(pattern) + " "@ + escaped(path)
}

pub fn build_grep_command(pattern: &str, path: &str, file_glob: Option<&str>) -> (r: String)
    ensures
        r@ == grep_command(pattern@, path@, match file_glob { Some(g) => Some(g@), None => None }),
{
    let mut s = "grep -R -n".to_owned();
    match file_glob {
        Some(g) => {
            push_str(&mut s, " --include=");
            let q = shell_escape(g);
            push_str(&mut s, q.as_str());
        },
        None => {},
    }
    push_str(&mut s, " -- ");
    let q = shell_escape(pattern);
    push_str(&mut s, q.as_str());
    push_str(&mut s, " ");
    let q = shell_escape(path);
    push_str(&mut s, q.as_str());
    proof {
        let head = match file_glob {
            Some(g) => "grep -R -n"@ + " --include="@ + escaped(g@),
            None => "grep -R -n"@,
        };
        assert(s@ =~= head + " -- "@ + escaped(pattern@) + " "@ + escaped(path@));
    }
    s
}

/// The argument vector that runs `script` through `sh -c`.
pub open spec fn sh_argv(script: Seq<char>) -> Seq<Seq<char>> {
    seq!["sh"@, "-c"@, script]
}

pub fn sh_command(script: String) -> (r: Vec<String>)
    ensures
        views(r@) == sh_argv(script@),
{
    let mut r: Vec<String> = Vec::new();
    r.push("sh".to_owned());
    r.push("-c".to_owned());
    r.push(script);
    assert(views(r@) =~= sh_argv(r@[2]@));
    r
}

/// Arguments of `sandbox-create`.
#[derive(Clone, Debug, PartialEq, Eq)]
pub struct SandboxCreateArgs {
    pub name: String,
}

/// Arguments of `read`: lines `offset..offset + limit` of a file.
#[derive(Clone, Debug, PartialEq, Eq)]
pub struct ReadArgs {
    pub sandbox: String,
    pub path: String,
    pub offset: Option<usize>,
    pub limit: Option<usize>,
}

/// Arguments of `write`.
#[derive(Clone, Debug, PartialEq, Eq)]
pub struct WriteArgs {
    pub sandbox: String,
    pub path: String,
    pub content: String,
}

/// Arguments of `patch`: a unified diff for one file.
#[derive(Clone, Debug, PartialEq, Eq)]
pub struct PatchArgs {
    pub sandbox: String,
    pub path: String,
    pub diff: String,
}

/// Arguments of `bash`.
#[derive(Clone, Debug, PartialEq, Eq)]
pub struct BashArgs {
    pub sandbox: String,
    pub command: String,
    pub workdir: Option<String>,
    pub timeout: Option<u64>,
}

/// Arguments of `ls`.
#[derive(Clone, Debug, PartialEq, Eq)]
pub struct LsArgs {
    pub sandbox: String,
    pub path: String,
    pub recursive: Option<bool>,
}

/// Arguments of `glob`: a pattern, matched below `path` (`/src` when absent).
#[derive(Clone, Debug, PartialEq, Eq)]
pub struct GlobArgs {
    pub sandbox: String,
    pub pattern: String,
    pub path: Option<String>,
}

/// Arguments of `grep`: `file_pattern` limits the search to the files it names (grep's
/// `--include`).
#[derive(Clone, Debug, PartialEq, Eq)]
pub struct GrepArgs {
    pub sandbox: String,
    pub pattern: String,
    pub path: String,
    pub file_pattern: Option<String>,
}

impl ReadArgs {
    /// The command that reads the file.
    pub fn command(&self) -> (r: Vec<String>)
        ensures
            views(r@) == sh_argv("cat -- "@ + escaped(container_path(self.path@))),
    {
        let p = resolve_container_path(self.path.as_str());
        sh_command(read_script(p.as_str()))
    }
}

impl WriteArgs {
    /// The command that writes the content to the file.
    pub fn command(&self) -> (r: Vec<String>)
        ensures
            views(r@) == sh_argv("printf %s "@ + escaped(self.content@) + " > "@ + escaped(container_path(self.path@))),
    {
        let p = resolve_container_path(self.path.as_str());
        sh_command(write_script(p.as_str(), self.content.as_str()))
    }
}

impl BashArgs {
    /// The command that runs the script.
    pub fn command(&self) -> (r: Vec<String>)
        ensures
            views(r@) == sh_argv(bash_command(self.command@, match self.workdir { Some(w) => Some(w@), None => None }, self.timeout)),
    {
        let w = match &self.workdir {
            Some(w) => Some(w.as_str()),
            None => None,
        };
        sh_command(build_bash_command(self.command.as_str(), w, self.timeout))
    }
}

impl LsArgs {
    /// The command that lists the directory, recursively when asked.
    pub fn command(&self) -> (r: Vec<String>)
        ensures
            views(r@) == sh_argv(if self.recursive == Some(true) {
                "find "@ + escaped(container_path(self.path@)) + " -mindepth 1 -print"@
            } else {
                "ls -1A "@ + escaped(container_path(self.path@))
            }),
    {
        let p = resolve_container_path(self.path.as_str());
        let recursive = match self.recursive {
            Some(b) => b,
            None => false,
        };
        sh_command(list_script(p.as_str(), recursive))
    }
}

impl GlobArgs {
    /// The directory below which the pattern is matched.
    pub fn base(&self) -> (r: String)
        ensures
            r@ == match self.path {
                Some(p) => container_path(p@),
                None => "/src"@,
            },
    {
        match &self.path {
            Some(p) => resolve_container_path(p.as_str()),
            None => "/src".to_owned(),
        }
    }
}

impl GrepArgs {
    /// The command that searches the path.
    pub fn command(&self) -> (r: Vec<String>)
        ensures
            views(r@) == sh_argv(grep_command(self.pattern@, container_path(self.path@), match self.file_pattern {
                Some(g) => Some(g@),
                None => None,
            })),
    {
        let p = resolve_container_path(self.path.as_str());
        let g = match &self.file_pattern {
            Some(g) => Some(g.as_str()),
            None => None,
        };
        sh_command(build_grep_command(self.pattern.as_str(), p.as_str(), g))
    }
}

/// The script that the `read` tool runs on a container path.
pub fn read_script(container_path: &str) -> (r: String)
    ensures
        r@ == "cat -- "@ + escaped(container_path@),
{
    let mut s = "cat -- ".to_owned();
    let q = shell_escape(container_path);
    push_str(&mut s, q.as_str());
    s
}

/// The script that the `write` tool runs: writes `content` to a container path, as is.
pub fn write_script(container_path: &str, content: &str) -> (r: String)
    ensures
        r@ == "printf %s "@ + escaped(content@) + " > "@ + escaped(container_path@),
{
    let mut s = "printf %s ".to_owned();
    let q = shell_escape(content);
    push_str(&mut s, q.as_str());
    push_str(&mut s, " > ");
    let q = shell_escape(container_path);
    push_str(&mut s, q.as_str());
    s
}

/// The script that the `ls` tool runs, and the `glob` tool when `recursive`.
pub fn list_script(container_path: &str, recursive: bool) -> (r: String)
    ensures
        r@ == if recursive {
            "find "@ + escaped(container_path@) + " -mindepth 1 -print"@
        } else {
            "ls -1A "@ + escaped(container_path@)
        },
{
    let q = shell_escape(container_path);
    if recursive {
        let mut s = "find ".to_owned();
        push_str(&mut s, q.as_str());
        push_str(&mut s, " -mindepth 1 -print");
        s
    } else {
        let mut s = "ls -1A ".to_owned();
        push_str(&mut s, q.as_str());
        s
    }
}

/// How many newlines `s` holds.
pub open spec fn newline_count(s: Seq<char>) -> int
    decreases s.len(),
{
    if s.len() == 0 {
        0
    } else {
        newline_count(s.drop_last()) + if s.last() == '\n' { 1int } else { 0int }
    }
}

/// The characters of `s` on lines `start` to `start + max - 1`, counting lines from 0;
/// a line's newline belongs to it.
pub open spec fn sliced(s: Seq<char>, start: int, max: int) -> Seq<char>
    decreases s.len(),
{
    if s.len() == 0 {
        Seq::empty()
    } else {
        let p = sliced(s.drop_last(), start, max);
        let line = newline_count(s.drop_last());
        if start <= line < start + max {
            p.push(s.last())
        } else {
            p
        }
    }
}

/// Lines `offset..offset + limit` of `content` (from the first line, and to the end, when
/// not given), each with its newline.
pub fn slice_content(content: &str, offset: Option<usize>, limit: Option<usize>) -> (r: String)
    ensures
        r@ == sliced(
            content@,
            match offset { Some(o) => o as int, None => 0 },
            match limit { Some(l) => l as int, None => usize::MAX as int },
        ),
{
    let start: usize = match offset {
        Some(o) => o,
        None => 0,
    };
    let max: usize = match limit {
        Some(l) => l,
        None => usize::MAX,
    };
    let v = chars_of(content);
    let mut r = String::new();
    let mut line: usize = 0;
    let mut i: usize = 0;
    while i < v.len()
        invariant
            i <= v@.len(),
            v@ == content@,
            line as int == newline_count(v@.take(i as int)),
            line <= i,
            r@ == sliced(v@.take(i as int), start as int, max as int),
        decreases v@.len() - i,
    {
        assert(v@.take(i + 1).drop_last() =~= v@.take(i as int));
        if line >= start && line - start < max {
            push_char(&mut r, v[i]);
        }
        if v[i] == '\n' {
            line = line + 1;
        }
        i = i + 1;
    }
    assert(v@.take(v@.len() as int) =~= v@);
    r
}

/// `path` relative to `base`: without `base` and the `/` after it, where it starts with
/// `base`; otherwise unchanged.
pub open spec fn relative_to(path: Seq<char>, base: Seq<char>) -> Seq<char> {
    if starts_with(path, base) {
        let rest = path.subrange(base.len() as int, path.len() as int);
        if rest.len() > 0 && rest[0] == '/' {
            rest.drop_first()
        } else {
            rest
        }
    } else {
        path
    }
}

pub fn strip_base_prefix(path: &str, base: &str) -> (r: String)
    ensures
        r@ == relative_to(path@, base@),
{
    let p = chars_of(path);
    let b = chars_of(base);
    if b.len() > p.len() {
        return path.to_owned();
    }
    let mut i: usize = 0;
    while i < b.len()
        invariant
            i <= b@.len() <= p@.len(),
            p@ == path@,
            b@ == base@,
            forall|k: int| 0 <= k < i ==> p@[k] == b@[k],
        decreases b@.len() - i,
    {
        if p[i] != b[i] {
            assert(p@.subrange(0, b@.len() as int)[i as int] != b@[i as int]);
            return path.to_owned();
        }
        i = i + 1;
    }
    assert(p@.subrange(0, b@.len() as int) =~= b@);
    let n = b.len();
    if n < p.len() && p[n] == '/' {
        assert(p@.subrange(n as int, p@.len() as int).drop_first() =~= p@.subrange(n + 1, p@.len() as int));
        string_of_range(&p, n + 1, p.len())
    } else {
        string_of_range(&p, n, p.len())
    }
}

/// The paths that `find` printed, one per non-empty line.
pub fn parse_find_output(output: &str) -> (r: Vec<String>)
    ensures
        views(r@) == lines_of(output@),
{
    nonempty_lines(output)
}

/// The matches that `grep -n` printed, one per non-empty line.
pub fn parse_grep_output(output: &str) -> (r: Vec<String>)
    ensures
        views(r@) == lines_of(output@),
{
    nonempty_lines(output)
}

/// What the `ls` tool lists for one line of output.
pub open spec fn ls_entry(line: Seq<char>, base: Seq<char>, recursive: bool) -> Seq<char> {
    if recursive { relative_to(line, base) } else { line }
}

/// The entries of an `ls -1A` listing, or of a `find` listing under `base` made relative to
/// it when `recursive`, sorted.
pub fn parse_ls_output(output: &str, base: &str, recursive: bool) -> (r: Vec<String>)
    ensures
        sorted(views(r@)),
        views(r@).to_multiset() == lines_of(output@).map_values(|l: Seq<char>| ls_entry(l, base@, recursive)).to_multiset(),
{
    let lines = nonempty_lines(output);
    let mut entries: Vec<String> = Vec::new();
    let mut i: usize = 0;
    while i < lines.len()
        invariant
            i <= lines@.len(),
            views(lines@) == lines_of(output@),
            views(entries@) == lines_of(output@).take(i as int).map_values(|l: Seq<char>| ls_entry(l, base@, recursive)),
        decreases lines@.len() - i,
    {
        let e = if recursive {
            strip_base_prefix(lines[i].as_str(), base)
        } else {
            lines[i].clone()
        };
        proof {
            assert(views(lines@)[i as int] == lines@[i as int]@);
            assert(e@ == ls_entry(lines_of(output@)[i as int], base@, recursive));
        }
        let ghost before = entries@;
        entries.push(e);
        proof {
            assert(views(entries@) =~= views(before).push(e@));
            assert(lines_of(output@).take(i + 1) =~= lines_of(output@).take(i as int).push(lines_of(output@)[i as int]));
        }
        i = i + 1;
        assert(views(entries@) =~= lines_of(output@).take(i as int).map_values(|l: Seq<char>| ls_entry(l, base@, recursive)));
    }
    assert(lines_of(output@).take(lines@.len() as int) =~= lines_of(output@));
    sort_strings(entries)
}

/// What caused a snapshot, which names its commit.
#[derive(Clone, Debug, PartialEq, Eq)]
pub enum SnapshotTrigger {
    Write { path: String },
    Patch { path: String },
    Bash { command: String },
}

pub open spec fn trigger_message(t: SnapshotTrigger) -> Seq<char> {
    match t {
        SnapshotTrigger::Write { path } => "write: "@ + path@,
        SnapshotTrigger::Patch { path } => "patch: "@ + path@,
        SnapshotTrigger::Bash { command } => "bash: "@ + command@,
    }
}

/// The commit message of the snapshot that `trigger` causes.
pub fn snapshot_message(trigger: &SnapshotTrigger) -> (r: String)
    ensures
        r@ == trigger_message(*trigger),
{
    let (head, rest) = match trigger {
        SnapshotTrigger::Write { path } => ("write: ", path),
        SnapshotTrigger::Patch { path } => ("patch: ", path),
        SnapshotTrigger::Bash { command } => ("bash: ", command),
    };
    let mut r = head.to_owned();
    push_str(&mut r, rest.as_str());
    r
}

/// A tool call's failure, before it is reported to the client.
#[derive(Debug, PartialEq, Eq)]
pub enum ToolError {
    Sandbox(SandboxError),
    NotFound { path: String },
    PermissionDenied { path: String },
    InvalidPattern { pattern: String, message: String },
    Failed { path: String, message: String },
    InvalidPatch { message: String },
    ApplyFailed { path: String, message: String },
    PatchRead { path: String, cause: Box<ToolError> },
    PatchWrite { path: String, cause: Box<ToolError> },
}

/// The text that a failed shell command left: its trimmed stderr, or its trimmed stdout when
/// stderr is blank.
pub open spec fn fault_text(result: ExecutionResult) -> Seq<char> {
    if trimmed(result.stderr@).len() > 0 {
        trimmed(result.stderr@)
    } else {
        trimmed(result.stdout@)
    }
}

/// How a failed shell command on `path` is classified. `pattern` is given for `grep` only,
/// whose complaints about a pattern are recognised.
pub open spec fn classified(e: ToolError, path: Seq<char>, pattern: Option<Seq<char>>, result: ExecutionResult) -> bool {
    let m = fault_text(result);
    if contains(m, "No such file or directory"@) {
        e is NotFound && e->NotFound_path@ == path
    } else if contains(m, "Permission denied"@) {
        e is PermissionDenied && e->PermissionDenied_path@ == path
    } else if pattern is Some && (contains(m, "Unmatched"@) || contains(m, "Invalid"@)) {
        e is InvalidPattern && e->InvalidPattern_pattern@ == pattern->Some_0 && e->InvalidPattern_message@ == m
    } else if m.len() == 0 {
        e is Failed && e->Failed_path@ == path && e->Failed_message@ == "exit code "@ + signed_decimal(result.exit_code as int)
    } else {
        e is Failed && e->Failed_path@ == path && e->Failed_message@ == m
    }
}

/// Classifies the failure of a shell command run on `path` by what it printed.
pub fn classify_failure(path: &str, pattern: Option<&str>, result: &ExecutionResult) -> (r: ToolError)
    ensures
        classified(r, path@, match pattern { Some(p) => Some(p@), None => None }, *result),
{
    let stderr = trim(result.stderr.as_str());
    let message = if !stderr.as_str().is_empty() {
        stderr
    } else {
        trim(result.stdout.as_str())
    };
    if contains_str(message.as_str(), "No such file or directory") {
        ToolError::NotFound { path: path.to_owned() }
    } else if contains_str(message.as_str(), "Permission denied") {
        ToolError::PermissionDenied { path: path.to_owned() }
    } else if pattern.is_some() && (contains_str(message.as_str(), "Unmatched") || contains_str(message.as_str(), "Invalid")) {
        let p = match pattern {
            Some(p) => p,
            None => "",
        };
        ToolError::InvalidPattern { pattern: p.to_owned(), message }
    } else if message.as_str().is_empty() {
        let mut m = "exit code ".to_owned();
        push_signed(&mut m, result.exit_code as i64);
        ToolError::Failed { path: path.to_owned(), message: m }
    } else {
        ToolError::Failed { path: path.to_owned(), message }
    }
}

/// What a `grep` run gives: its matches on exit 0; no matches on exit 1 with a blank
/// stderr; otherwise its classified failure.
pub fn grep_outcome(path: &str, pattern: &str, result: &ExecutionResult) -> (r: Result<Vec<String>, ToolError>)
    ensures
        result.exit_code == 0 ==> r is Ok && views(r->Ok_0@) == lines_of(result.stdout@),
        result.exit_code == 1 && trimmed(result.stderr@).len() == 0 ==> r is Ok && r->Ok_0@.len() == 0,
        result.exit_code != 0 && !(result.exit_code == 1 && trimmed(result.stderr@).len() == 0) ==>
            r is Err && classified(r->Err_0, path@, Some(pattern@), *result),
{
    if result.exit_code == 0 {
        return Ok(parse_grep_output(result.stdout.as_str()));
    }
    let stderr = trim(result.stderr.as_str());
    if result.exit_code == 1 && stderr.as_str().is_empty() {
        return Ok(Vec::new());
    }
    Err(classify_failure(path, Some(pattern), result))
}

/// What a `cat`, `printf` or `ls` run gives: nothing on exit 0, else its classified failure.
pub fn shell_outcome(path: &str, result: &ExecutionResult) -> (r: Result<(), ToolError>)
    ensures
        result.exit_code == 0 <==> r is Ok,
        r is Err ==> classified(r->Err_0, path@, None, *result),
{
    if result.exit_code == 0 {
        Ok(())
    } else {
        Err(classify_failure(path, None, result))
    }
}

/// Whether the container engine said that the container does not exist, while inspecting
/// it or running a command in it.
pub open spec fn container_missing(e: SandboxError) -> bool {
    match e {
        SandboxError::Compute(ComputeError::ContainerExec { status_code, .. }) => status_code == Some(404u16),
        SandboxError::Compute(ComputeError::ContainerInspect { status_code, .. }) => status_code == Some(404u16),
        _ => false,
    }
}

pub fn is_container_missing(error: &SandboxError) -> (r: bool)
    ensures
        r == container_missing(*error),
{
    match error {
        SandboxError::Compute(ComputeError::ContainerExec { status_code, .. }) => match status_code {
            Some(c) => *c == 404,
            None => false,
        },
        SandboxError::Compute(ComputeError::ContainerInspect { status_code, .. }) => match status_code {
            Some(c) => *c == 404,
            None => false,
        },
        _ => false,
    }
}

/// The two kinds of error that the client sees.
#[derive(Clone, Copy, Debug, PartialEq, Eq, Structural)]
pub enum FaultKind {
    InvalidParams,
    InternalError,
}

/// An error as the client sees it.
#[derive(Clone, Debug, PartialEq, Eq)]
pub struct ToolFault {
    pub kind: FaultKind,
    pub message: String,
}

/// A user's mistake: a bad name, a sandbox that exists already or does not exist.
pub open spec fn user_error(e: SandboxError) -> bool {
    e is InvalidName || e is SandboxExists || e is SandboxNotFound
}

/// Reports a sandbox error: user errors as invalid parameters, the rest as internal errors.
pub fn map_error(error: &SandboxError) -> (r: ToolFault)
    ensures
        r.kind == (if user_error(*error) { FaultKind::InvalidParams } else { FaultKind::InternalError }),
        r.message@ == error.text(),
{
    let kind = match error {
        SandboxError::InvalidName { .. } => FaultKind::InvalidParams,
        SandboxError::SandboxExists { .. } => FaultKind::InvalidParams,
        SandboxError::SandboxNotFound { .. } => FaultKind::InvalidParams,
        _ => FaultKind::InternalError,
    };
    ToolFault { kind, message: error.message() }
}

/// The text that reports sandbox `name` as missing.
pub open spec fn not_found_text(name: Seq<char>) -> Seq<char> {
    "Sandbox '"@ + name + "' not found."@
}

/// Reports a sandbox error met while working on sandbox `name`: a missing container is
/// reported as that sandbox not being found.
pub fn map_sandbox_error(name: &str, error: &SandboxError) -> (r: ToolFault)
    ensures
        container_missing(*error) ==> r.kind == FaultKind::InvalidParams && r.message@ == not_found_text(name@),
        !container_missing(*error) ==> r.kind == (if user_error(*error) { FaultKind::InvalidParams } else { FaultKind::InternalError })
            && r.message@ == error.text(),
{
    if is_container_missing(error) {
        let mut m = "Sandbox '".to_owned();
        push_str(&mut m, name);
        push_str(&mut m, "' not found.");
        ToolFault { kind: FaultKind::InvalidParams, message: m }
    } else {
        map_error(error)
    }
}

/// The tools whose failures are reported.
#[derive(Clone, Copy, Debug, PartialEq, Eq, Structural)]
pub enum Tool {
    Read,
    Write,
    Patch,
    Bash,
    Ls,
    Glob,
    Grep,
}

/// Whether `e` is the container engine saying that the sandbox's container is missing.
pub open spec fn missing_container_error(e: ToolError) -> bool {
    match e {
        ToolError::Sandbox(s) => container_missing(s),
        _ => false,
    }
}

/// The text of a failure of `tool` on sandbox `sandbox`. A failure to read or write the file
/// that a patch is for reports the sandbox as not found when its container is missing.
pub open spec fn tool_fault_text(tool: Tool, sandbox: Seq<char>, e: ToolError) -> Seq<char>
    decreases e,
{
    match e {
        ToolError::Sandbox(s) => if container_missing(s) { not_found_text(sandbox) } else { s.text() },
        ToolError::NotFound { path } => if tool == Tool::Read { "file not found: "@ + path@ } else { "path not found: "@ + path@ },
        ToolError::PermissionDenied { path } => "permission denied: "@ + path@,
        ToolError::InvalidPattern { pattern, message } => (if tool == Tool::Glob { "invalid glob pattern '"@ } else { "invalid grep pattern '"@ })
            + pattern@ + "': "@ + message@,
        ToolError::Failed { path, message } => failed_head(tool) + path@ + ": "@ + message@,
        ToolError::InvalidPatch { message } => "invalid patch: "@ + message@,
        ToolError::ApplyFailed { path, message } => "failed to apply patch to "@ + path@ + ": "@ + message@,
        ToolError::PatchRead { path, cause } => if missing_container_error(*cause) {
            not_found_text(sandbox)
        } else {
            "failed to read file "@ + path@ + " for patching: "@ + tool_fault_text(Tool::Read, sandbox, *cause)
        },
        ToolError::PatchWrite { path, cause } => if missing_container_error(*cause) {
            not_found_text(sandbox)
        } else {
            "failed to write patched file "@ + path@ + ": "@ + tool_fault_text(Tool::Write, sandbox, *cause)
        },
    }
}

pub open spec fn failed_head(tool: Tool) -> Seq<char> {
    match tool {
        Tool::Read => "failed to read "@,
        Tool::Write => "failed to write "@,
        Tool::Ls => "failed to list "@,
        Tool::Glob => "glob failed for "@,
        Tool::Grep => "grep failed for "@,
        _ => "failed to run "@,
    }
}

/// Whether the client is told that its parameters were wrong, rather than that the server failed.
pub open spec fn tool_fault_invalid(e: ToolError) -> bool {
    match e {
        ToolError::Sandbox(s) => container_missing(s) || user_error(s),
        ToolError::NotFound { .. } => true,
        ToolError::PermissionDenied { .. } => true,
        ToolError::InvalidPattern { .. } => true,
        ToolError::InvalidPatch { .. } => true,
        ToolError::PatchRead { cause, .. } => missing_container_error(*cause),
        ToolError::PatchWrite { cause, .. } => missing_container_error(*cause),
        _ => false,
    }
}

/// Reports a failure of `tool` on sandbox `sandbox` to the client.
pub fn map_tool_error(tool: Tool, sandbox: &str, error: &ToolError) -> (r: ToolFault)
    ensures
        r.kind == (if tool_fault_invalid(*error) { FaultKind::InvalidParams } else { FaultKind::InternalError }),
        r.message@ == tool_fault_text(tool, sandbox@, *error),
    decreases error,
{
    match error {
        ToolError::Sandbox(e) => map_sandbox_error(sandbox, e),
        ToolError::NotFound { path } => {
            let mut m = if tool == Tool::Read { "file not found: ".to_owned() } else { "path not found: ".to_owned() };
            push_str(&mut m, path.as_str());
            ToolFault { kind: FaultKind::InvalidParams, message: m }
        },
        ToolError::PermissionDenied { path } => {
            let mut m = "permission denied: ".to_owned();
            push_str(&mut m, path.as_str());
            ToolFault { kind: FaultKind::InvalidParams, message: m }
        },
        ToolError::InvalidPattern { pattern, message } => {
            let mut m = if tool == Tool::Glob { "invalid glob pattern '".to_owned() } else { "invalid grep pattern '".to_owned() };
            push_str(&mut m, pattern.as_str());
            push_str(&mut m, "': ");
            push_str(&mut m, message.as_str());
            ToolFault { kind: FaultKind::InvalidParams, message: m }
        },
        ToolError::Failed { path, message } => {
            let mut m = match tool {
                Tool::Read => "failed to read ".to_owned(),
                Tool::Write => "failed to write ".to_owned(),
                Tool::Ls => "failed to list ".to_owned(),
                Tool::Glob => "glob failed for ".to_owned(),
                Tool::Grep => "grep failed for ".to_owned(),
                _ => "failed to run ".to_owned(),
            };
            push_str(&mut m, path.as_str());
            push_str(&mut m, ": ");
            push_str(&mut m, message.as_str());
            ToolFault { kind: FaultKind::InternalError, message: m }
        },
        ToolError::InvalidPatch { message } => {
            let mut m = "invalid patch: ".to_owned();
            push_str(&mut m, message.as_str());
            ToolFault { kind: FaultKind::InvalidParams, message: m }
        },
        ToolError::ApplyFailed { path, message } => {
            let mut m = "failed to apply patch to ".to_owned();
            push_str(&mut m, path.as_str());
            push_str(&mut m, ": ");
            push_str(&mut m, message.as_str());
            ToolFault { kind: FaultKind::InternalError, message: m }
        },
        ToolError::PatchRead { path, cause } => {
            if let ToolError::Sandbox(e) = &**cause {
                if is_container_missing(e) {
                    return map_sandbox_error(sandbox, e);
                }
            }
            let inner = map_tool_error(Tool::Read, sandbox, &**cause);
            let mut m = "failed to read file ".to_owned();
            push_str(&mut m, path.as_str());
            push_str(&mut m, " for patching: ");
            push_str(&mut m, inner.message.as_str());
            ToolFault { kind: FaultKind::InternalError, message: m }
        },
        ToolError::PatchWrite { path, cause } => {
            if let ToolError::Sandbox(e) = &**cause {
                if is_container_missing(e) {
                    return map_sandbox_error(sandbox, e);
                }
            }
            let inner = map_tool_error(Tool::Write, sandbox, &**cause);
            let mut m = "failed to write patched file ".to_owned();
            push_str(&mut m, path.as_str());
            push_str(&mut m, ": ");
            push_str(&mut m, inner.message.as_str());
            ToolFault { kind: FaultKind::InternalError, message: m }
        },
    }
}

/// Whatever tool fails, when the container engine answered 404 to inspecting the container
/// or running a command in it, the client is told that the sandbox was not found, as a
/// mistake in its parameters.
/// This holds too when the patch tool meets the missing container while reading or writing
/// the file it patches.
pub proof fn lemma_missing_container_is_not_found(tool: Tool, sandbox: Seq<char>, e: SandboxError, path: String)
    requires
        container_missing(e),
    ensures
        tool_fault_invalid(ToolError::Sandbox(e)),
        tool_fault_text(tool, sandbox, ToolError::Sandbox(e)) == not_found_text(sandbox),
        tool_fault_invalid(ToolError::PatchRead { path, cause: Box::new(ToolError::Sandbox(e)) }),
        tool_fault_text(tool, sandbox, ToolError::PatchRead { path, cause: Box::new(ToolError::Sandbox(e)) })
            == not_found_text(sandbox),
        tool_fault_invalid(ToolError::PatchWrite { path, cause: Box::new(ToolError::Sandbox(e)) }),
        tool_fault_text(tool, sandbox, ToolError::PatchWrite { path, cause: Box::new(ToolError::Sandbox(e)) })
            == not_found_text(sandbox),
{
}

#[verifier::external_type_specification]
#[verifier::external_body]
pub struct ExPattern(glob::Pattern);

#[verifier::external_type_specification]
#[verifier::external_body]
#[verifier::reject_recursive_types(T)]
pub struct ExPatch<'a, T: ToOwned + ?Sized>(diffy::Patch<'a, T>);

/// Why `glob::Pattern::new` refuses `pattern`, as its error prints; `None` when it accepts it.
pub uninterp spec fn glob_error(pattern: Seq<char>) -> Option<Seq<char>>;

/// Whether `candidate` matches `pattern` under `glob::Pattern::matches_with`, with the
/// options `case_sensitive`, `require_literal_separator` and `require_literal_leading_dot`.
pub uninterp spec fn glob_matches(
    pattern: Seq<char>,
    candidate: Seq<char>,
    case_sensitive: bool,
    literal_separator: bool,
    literal_leading_dot: bool,
) -> bool;

/// Why `diffy::Patch::from_str` refuses `diff`, as its error prints; `None` when it parses.
pub uninterp spec fn patch_parse_error(diff: Seq<char>) -> Option<Seq<char>>;

/// What `diffy::apply` gives for `base` and the parsed `diff`: the patched text, or its
/// error as it prints.
pub uninterp spec fn patch_applied(base: Seq<char>, diff: Seq<char>) -> Result<Seq<char>, Seq<char>>;

/// A glob pattern compiled by the `glob` crate, with the text it was compiled from.
pub struct GlobPattern {
    text: String,
    compiled: glob::Pattern,
}

impl GlobPattern {
    pub closed spec fn source(&self) -> Seq<char> {
        self.text@
    }
}

/// Relies on `glob::Pattern::new`: compiles `pattern`, or gives its error's text.
#[verifier::external_body]
fn compile_glob(pattern: &str) -> (r: Result<GlobPattern, String>)
    ensures
        match glob_error(pattern@) {
            None => r is Ok && r->Ok_0.source() == pattern@,
            Some(m) => r is Err && r->Err_0@ == m,
        },
{
    match glob::Pattern::new(pattern) {
        Ok(compiled) => Ok(GlobPattern { text: pattern.to_string(), compiled }),
        Err(e) => Err(e.to_string()),
    }
}

/// Relies on `glob::Pattern::matches_with`: whether `candidate` matches under the given
/// match options.
#[verifier::external_body]
fn glob_match(
    pattern: &GlobPattern,
    candidate: &str,
    case_sensitive: bool,
    literal_separator: bool,
    literal_leading_dot: bool,
) -> (r: bool)
    ensures
        r == glob_matches(pattern.source(), candidate@, case_sensitive, literal_separator, literal_leading_dot),
{
    let options = glob::MatchOptions {
        case_sensitive,
        require_literal_separator: literal_separator,
        require_literal_leading_dot: literal_leading_dot,
    };
    pattern.compiled.matches_with(candidate, options)
}

/// A unified diff parsed by `diffy`, with the text it was parsed from.
pub struct ParsedPatch<'a> {
    text: &'a str,
    parsed: diffy::Patch<'a, str>,
}

impl<'a> ParsedPatch<'a> {
    pub closed spec fn source(&self) -> Seq<char> {
        self.text@
    }
}

/// The value of the run of decimal digits at the end of `s` (0 when `s` does not end in a
/// digit).
pub open spec fn trailing_run(s: Seq<char>) -> nat
    decreases s.len(),
{
    if s.len() == 0 {
        0
    } else if '0' <= s.last() && s.last() <= '9' {
        trailing_run(s.drop_last()) * 10 + ((s.last() as u32) - 48) as nat
    } else {
        0
    }
}

/// The largest number a hunk header may hold: twice it still fits in a `usize`.
pub open spec fn header_number_limit() -> nat {
    (usize::MAX / 2) as nat
}

/// Every run of digits in `line` is worth at most the limit.
pub open spec fn header_numbers_fit(line: Seq<char>) -> bool {
    forall|k: int| 0 <= k <= line.len() ==> trailing_run(#[trigger] line.take(k)) <= header_number_limit()
}

/// Every line of `diff` that can be a hunk header (it starts with `@`) holds only numbers
/// within the limit, so that a hunk's start plus its length fits in a `usize`.
pub open spec fn hunk_numbers_fit(diff: Seq<char>) -> bool {
    forall|i: int| 0 <= i < lines_of(diff).len() && #[trigger] lines_of(diff)[i].len() > 0
        && lines_of(diff)[i][0] == '@' ==> header_numbers_fit(lines_of(diff)[i])
}

fn line_numbers_fit(line: &str) -> (r: bool)
    ensures
        r == header_numbers_fit(line@),
{
    let v = chars_of(line);
    let limit: u128 = (usize::MAX / 2) as u128;
    let mut acc: u128 = 0;
    let mut i: usize = 0;
    assert(v@.take(0) =~= Seq::<char>::empty());
    while i < v.len()
        invariant
            i <= v@.len(),
            v@ == line@,
            limit as nat == header_number_limit(),
            acc as nat == trailing_run(v@.take(i as int)),
            acc <= limit,
            forall|k: int| 0 <= k <= i ==> trailing_run(#[trigger] v@.take(k)) <= header_number_limit(),
        decreases v@.len() - i,
    {
        let c = v[i];
        assert(v@.take(i + 1).drop_last() =~= v@.take(i as int));
        assert(v@.take(i + 1).last() == c);
        if '0' <= c && c <= '9' {
            let next: u128 = acc * 10 + ((c as u32) - 48) as u128;
            if next > limit {
                assert(!header_numbers_fit(line@)) by {
                    assert(trailing_run(v@.take(i + 1)) > header_number_limit());
                }
                return false;
            }
            acc = next;
        } else {
            acc = 0;
        }
        i = i + 1;
    }
    assert(v@.take(v@.len() as int) =~= v@);
    true
}

/// Whether every possible hunk header of `diff` holds only numbers within the limit.
pub fn diff_numbers_fit(diff: &str) -> (r: bool)
    ensures
        r == hunk_numbers_fit(diff@),
{
    let lines = nonempty_lines(diff);
    let mut i: usize = 0;
    while i < lines.len()
        invariant
            i <= lines@.len(),
            views(lines@) == lines_of(diff@),
            forall|k: int| 0 <= k < i && #[trigger] lines_of(diff@)[k].len() > 0
                && lines_of(diff@)[k][0] == '@' ==> header_numbers_fit(lines_of(diff@)[k]),
        decreases lines@.len() - i,
    {
        assert(views(lines@)[i as int] == lines@[i as int]@);
        let v = chars_of(lines[i].as_str());
        if v.len() > 0 && v[0] == '@' && !line_numbers_fit(lines[i].as_str()) {
            return false;
        }
        i = i + 1;
    }
    true
}

/// Relies on `diffy::Patch::from_str`: parses a unified diff, or gives its error's text.
/// It adds each hunk's start and length (`HunkRange::end`) while checking the hunks' order,
/// which overflows on huge numbers; hence only diffs whose hunk headers hold numbers within
/// the limit are handed to it.
#[verifier::external_body]
fn parse_patch<'a>(diff: &'a str) -> (r: Result<ParsedPatch<'a>, String>)
    requires
        hunk_numbers_fit(diff@),
    ensures
        match patch_parse_error(diff@) {
            None => r is Ok && r->Ok_0.source() == diff@,
            Some(m) => r is Err && r->Err_0@ == m,
        },
{
    match diffy::Patch::from_str(diff) {
        Ok(parsed) => Ok(ParsedPatch { text: diff, parsed }),
        Err(e) => Err(e.to_string()),
    }
}

/// Relies on `diffy::apply`: applies a parsed diff to `base`, or gives its error's text.
#[verifier::external_body]
fn apply_parsed_patch(base: &str, patch: &ParsedPatch) -> (r: Result<String, String>)
    ensures
        match patch_applied(base@, patch.source()) {
            Ok(t) => r is Ok && r->Ok_0@ == t,
            Err(m) => r is Err && r->Err_0@ == m,
        },
{
    diffy::apply(base, &patch.parsed).map_err(|e| e.to_string())
}

/// The text of file `path` after applying `diff` to its content `original`: `InvalidPatch`
/// when a hunk header holds a number beyond the limit or the diff does not parse,
/// `ApplyFailed` when it does not apply.
pub fn patch_content(path: &str, original: &str, diff: &str) -> (r: Result<String, ToolError>)
    ensures
        !hunk_numbers_fit(diff@) ==> r is Err && r->Err_0 is InvalidPatch
            && r->Err_0->InvalidPatch_message@ == "hunk header number too large"@,
        hunk_numbers_fit(diff@) ==> match patch_parse_error(diff@) {
            Some(m) => r is Err && r->Err_0 is InvalidPatch && r->Err_0->InvalidPatch_message@ == m,
            None => match patch_applied(original@, diff@) {
                Ok(t) => r is Ok && r->Ok_0@ == t,
                Err(m) => r is Err && r->Err_0 is ApplyFailed && r->Err_0->ApplyFailed_path@ == path@
                    && r->Err_0->ApplyFailed_message@ == m,
            },
        },
{
    if !diff_numbers_fit(diff) {
        return Err(ToolError::InvalidPatch { message: "hunk header number too large".to_owned() });
    }
    let patch = match parse_patch(diff) {
        Ok(p) => p,
        Err(m) => {
            return Err(ToolError::InvalidPatch { message: m });
        },
    };
    match apply_parsed_patch(original, &patch) {
        Ok(t) => Ok(t),
        Err(m) => Err(ToolError::ApplyFailed { path: path.to_owned(), message: m }),
    }
}

/// The entries that the `glob` tool returns out of a `find` listing under `base`, in the
/// order listed: those whose path matches `pattern` (case-sensitive, `/` matched only by a
/// literal `/`, a leading dot not special), relative to `base` unless the pattern is
/// absolute.
pub open spec fn glob_selected(entries: Seq<Seq<char>>, base: Seq<char>, pattern: Seq<char>) -> Seq<Seq<char>>
    decreases entries.len(),
{
    if entries.len() == 0 {
        Seq::empty()
    } else {
        let rest = glob_selected(entries.drop_last(), base, pattern);
        let e = entries.last();
        let shown = if pattern.len() > 0 && pattern[0] == '/' { e } else { relative_to(e, base) };
        if glob_matches(pattern, shown, true, true, false) {
            rest.push(shown)
        } else {
            rest
        }
    }
}

/// What the `glob` tool returns for the output of `find <base> -mindepth 1 -print`: every
/// listed path that matches `pattern` (relative to `base` unless the pattern is absolute),
/// sorted; `InvalidPattern` when the `glob` crate refuses the pattern.
pub fn glob_select(pattern: &str, base: &str, find_output: &str) -> (r: Result<Vec<String>, ToolError>)
    ensures
        match glob_error(pattern@) {
            Some(m) => r is Err && r->Err_0 is InvalidPattern && r->Err_0->InvalidPattern_pattern@ == pattern@
                && r->Err_0->InvalidPattern_message@ == m,
            None => r is Ok && sorted(views(r->Ok_0@))
                && views(r->Ok_0@).to_multiset() == glob_selected(lines_of(find_output@), base@, pattern@).to_multiset(),
        },
{
    let compiled = match compile_glob(pattern) {
        Ok(p) => p,
        Err(m) => {
            return Err(ToolError::InvalidPattern { pattern: pattern.to_owned(), message: m });
        },
    };
    let pv = chars_of(pattern);
    let absolute = pv.len() > 0 && pv[0] == '/';
    let entries = parse_find_output(find_output);
    let mut out: Vec<String> = Vec::new();
    let mut i: usize = 0;
    while i < entries.len()
        invariant
            i <= entries@.len(),
            views(entries@) == lines_of(find_output@),
            compiled.source() == pattern@,
            absolute == (pattern@.len() > 0 && pattern@[0] == '/'),
            views(out@) == glob_selected(lines_of(find_output@).take(i as int), base@, pattern@),
        decreases entries@.len() - i,
    {
        let ghost t = lines_of(find_output@).take(i + 1);
        assert(t.drop_last() =~= lines_of(find_output@).take(i as int));
        assert(t.last() == entries@[i as int]@);
        let shown = if absolute {
            entries[i].clone()
        } else {
            strip_base_prefix(entries[i].as_str(), base)
        };
        if glob_match(&compiled, shown.as_str(), true, true, false) {
            let ghost before = out@;
            out.push(shown);
            assert(views(out@) =~= views(before).push(out@.last()@));
        }
        i = i + 1;
    }
    assert(lines_of(find_output@).take(entries@.len() as int) =~= lines_of(find_output@));
    Ok(sort_strings(out))
}

} // verus!
