use vstd::prelude::*;

use crate::domain::ComputeError;
use crate::text::{chars_of, push_str, starts_with, str_eq, string_of_range};

verus! {

/// One frame of an exec's attached output stream.
#[derive(Clone, Debug, PartialEq, Eq)]
pub enum ExecFrame {
    StdOut(Vec<u8>),
    StdErr(Vec<u8>),
    StdIn(Vec<u8>),
    Console(Vec<u8>),
}

/// The bytes of the frames that count as stdout (stdout and console frames).
pub open spec fn stdout_bytes(frames: Seq<ExecFrame>) -> Seq<u8>
    decreases frames.len(),
{
    if frames.len() == 0 {
        Seq::empty()
    } else {
        stdout_bytes(frames.drop_last()) + match frames.last() {
            ExecFrame::StdOut(b) => b@,
            ExecFrame::Console(b) => b@,
            _ => Seq::empty(),
        }
    }
}

/// The bytes of the stderr frames.
pub open spec fn stderr_bytes(frames: Seq<ExecFrame>) -> Seq<u8>
    decreases frames.len(),
{
    if frames.len() == 0 {
        Seq::empty()
    } else {
        stderr_bytes(frames.drop_last()) + match frames.last() {
            ExecFrame::StdErr(b) => b@,
            _ => Seq::empty(),
        }
    }
}

fn append_bytes(out: &mut Vec<u8>, b: &Vec<u8>)
    ensures
        final(out)@ == old(out)@ + b@,
{
    let mut i: usize = 0;
    while i < b.len()
        invariant
            i <= b@.len(),
            out@ == old(out)@ + b@.take(i as int),
        decreases b@.len() - i,
    {
        out.push(b[i]);
        i = i + 1;
        assert(out@ =~= old(out)@ + b@.take(i as int));
    }
    assert(b@.take(b@.len() as int) =~= b@);
}

/// Splits an exec's frames into its stdout and stderr bytes; echoed stdin is dropped.
pub fn collect_exec_output(frames: &Vec<ExecFrame>) -> (r: (Vec<u8>, Vec<u8>))
    ensures
        r.0@ == stdout_bytes(frames@),
        r.1@ == stderr_bytes(frames@),
{
    let mut out: Vec<u8> = Vec::new();
    let mut err: Vec<u8> = Vec::new();
    let mut i: usize = 0;
    while i < frames.len()
        invariant
            i <= frames@.len(),
            out@ == stdout_bytes(frames@.take(i as int)),
            err@ == stderr_bytes(frames@.take(i as int)),
        decreases frames@.len() - i,
    {
        assert(frames@.take(i + 1).drop_last() =~= frames@.take(i as int));
        match &frames[i] {
            ExecFrame::StdOut(b) => append_bytes(&mut out, b),
            ExecFrame::Console(b) => append_bytes(&mut out, b),
            ExecFrame::StdErr(b) => append_bytes(&mut err, b),
            ExecFrame::StdIn(_) => {},
        }
        i = i + 1;
        assert(out@ =~= stdout_bytes(frames@.take(i as int)));
        assert(err@ =~= stderr_bytes(frames@.take(i as int)));
    }
    assert(frames@.take(frames@.len() as int) =~= frames@);
    (out, err)
}

/// The exit code of an exec: the engine's when it fits in an `i32`, else the saturating
/// `i32::MAX`, which also stands for a missing one.
pub fn exec_exit_code(reported: Option<i64>) -> (r: i32)
    ensures
        match reported {
            Some(c) => if i32::MIN <= c <= i32::MAX { r as int == c } else { r == i32::MAX },
            None => r == i32::MAX,
        },
{
    match reported {
        Some(c) => {
            if -2147483648 <= c && c <= 2147483647 {
                c as i32
            } else {
                i32::MAX
            }
        },
        None => i32::MAX,
    }
}

/// Whether the container engine answered "not found".
pub fn is_not_found(status_code: Option<u16>) -> (r: bool)
    ensures
        r == (status_code == Some(404u16)),
{
    match status_code {
        Some(c) => c == 404,
        None => false,
    }
}

/// How to reach the container engine.
#[derive(Clone, Debug, PartialEq, Eq)]
pub enum Endpoint {
    Unix(String),
    Http(String),
    LocalDefaults,
}

/// Whether `://` starts at position `i` of `host`.
pub open spec fn sep_at(host: Seq<char>, i: int) -> bool {
    0 <= i && i + 3 <= host.len() && host[i] == ':' && host[i + 1] == '/' && host[i + 2] == '/'
}

/// The position of the first `://` in `host` at or after `from`, or -1 when there is none.
pub open spec fn scheme_sep(host: Seq<char>, from: int) -> int
    decreases host.len() - from,
{
    if from < 0 || from + 3 > host.len() {
        -1
    } else if sep_at(host, from) {
        from
    } else {
        scheme_sep(host, from + 1)
    }
}

/// The endpoint that a Docker host string names: `unix://<path>` or a bare path is a
/// socket, `tcp://<addr>` is reached over HTTP, any other scheme falls back to the local
/// defaults.
pub open spec fn endpoint_of(host: Seq<char>, e: Endpoint) -> bool {
    let i = scheme_sep(host, 0);
    if i < 0 {
        e is Unix && e->Unix_0@ == host
    } else {
        let scheme = host.take(i);
        let rest = host.subrange(i + 3, host.len() as int);
        if scheme == "unix"@ {
            e is Unix && e->Unix_0@ == rest
        } else if scheme == "tcp"@ {
            e is Http && e->Http_0@ == "http://"@ + rest
        } else {
            e is LocalDefaults
        }
    }
}

pub fn docker_endpoint(host: &str) -> (r: Endpoint)
    ensures
        endpoint_of(host@, r),
{
    let v = chars_of(host);
    let n = v.len();
    let mut i: usize = 0;
    let mut found = false;
    while !found && n >= 3 && i <= n - 3
        invariant
            v@ == host@,
            n == v@.len(),
            found ==> sep_at(host@, i as int) && scheme_sep(host@, 0) == i,
            !found ==> scheme_sep(host@, 0) == scheme_sep(host@, i as int),
            i <= n,
        decreases n + 1 - i, if found { 0int } else { 1int },
    {
        if v[i] == ':' && v[i + 1] == '/' && v[i + 2] == '/' {
            found = true;
        } else {
            i = i + 1;
        }
    }
    if !found {
        return Endpoint::Unix(host.to_owned());
    }
    let scheme = string_of_range(&v, 0, i);
    let rest = string_of_range(&v, i + 3, n);
    assert(scheme@ =~= host@.take(i as int));
    if str_eq(scheme.as_str(), "unix") {
        Endpoint::Unix(rest)
    } else if str_eq(scheme.as_str(), "tcp") {
        let mut url = "http://".to_owned();
        push_str(&mut url, rest.as_str());
        Endpoint::Http(url)
    } else {
        Endpoint::LocalDefaults
    }
}

/// The idempotent container verbs.
#[derive(Clone, Copy, Debug, PartialEq, Eq, Structural)]
pub enum ContainerVerb {
    Pause,
    Resume,
    Delete,
}

/// Whether an engine answer with `status` counts as success for an idempotent verb: the
/// container is already in the target state (409) or already gone (404).
pub open spec fn already_done(verb: ContainerVerb, status: Option<u16>) -> bool {
    status == Some(404u16) || status == Some(409u16)
}

/// The outcome of an idempotent verb whose engine call failed with `status` and `detail`:
/// success when the container is already in the target state or gone, else the verb's error.
pub fn idempotent_outcome(verb: ContainerVerb, status: Option<u16>, detail: String) -> (r: Result<(), ComputeError>)
    ensures
        already_done(verb, status) <==> r is Ok,
        r matches Err(e) ==> e == match verb {
            ContainerVerb::Pause => ComputeError::ContainerPause { status_code: status, detail },
            ContainerVerb::Resume => ComputeError::ContainerResume { status_code: status, detail },
            ContainerVerb::Delete => ComputeError::ContainerDelete { status_code: status, detail },
        },
{
    let done = match status {
        Some(c) => c == 404 || c == 409,
        None => false,
    };
    if done {
        return Ok(());
    }
    match verb {
        ContainerVerb::Pause => Err(ComputeError::ContainerPause { status_code: status, detail }),
        ContainerVerb::Resume => Err(ComputeError::ContainerResume { status_code: status, detail }),
        ContainerVerb::Delete => Err(ComputeError::ContainerDelete { status_code: status, detail }),
    }
}

/// Whether an archive entry belongs to a repository's own `.git` (at the top, or under
/// `src/` or `/src/`), which a download must not write.
pub open spec fn is_git_entry(path: Seq<char>) -> bool {
    path == ".git"@ || starts_with(path, ".git/"@) || path == "src/.git"@ || starts_with(path, "src/.git/"@)
        || path == "/src/.git"@ || starts_with(path, "/src/.git/"@)
}

/// Where a downloaded archive entry lands below the destination: the path without a leading
/// `src` component; `None` for `.git` entries and for `src` itself.
pub open spec fn extract_target(path: Seq<char>) -> Option<Seq<char>> {
    if is_git_entry(path) {
        None
    } else {
        let rest = if starts_with(path, "src/"@) {
            path.subrange(4, path.len() as int)
        } else if starts_with(path, "/src/"@) {
            path.subrange(5, path.len() as int)
        } else if path == "src"@ || path == "/src"@ {
            Seq::empty()
        } else {
            path
        };
        if rest.len() == 0 { None } else { Some(rest) }
    }
}

fn has_prefix(v: &Vec<char>, p: &str) -> (r: bool)
    ensures
        r == starts_with(v@, p@),
{
    let w = chars_of(p);
    if w.len() > v.len() {
        return false;
    }
    let mut i: usize = 0;
    while i < w.len()
        invariant
            i <= w@.len() <= v@.len(),
            w@ == p@,
            forall|k: int| 0 <= k < i ==> v@[k] == w@[k],
        decreases w@.len() - i,
    {
        if v[i] != w[i] {
            assert(v@.subrange(0, w@.len() as int)[i as int] != w@[i as int]);
            return false;
        }
        i = i + 1;
    }
    assert(v@.subrange(0, w@.len() as int) =~= w@);
    true
}

/// The place below the destination where a downloaded entry is written, if anywhere.
pub fn download_target(path: &str) -> (r: Option<String>)
    ensures
        match extract_target(path@) {
            Some(t) => r is Some && r->Some_0@ == t,
            None => r is None,
        },
{
    let v = chars_of(path);
    proof {
        reveal_strlit("src/");
        reveal_strlit("/src/");
    }
    if str_eq(path, ".git") || has_prefix(&v, ".git/") || str_eq(path, "src/.git") || has_prefix(&v, "src/.git/")
        || str_eq(path, "/src/.git") || has_prefix(&v, "/src/.git/") {
        return None;
    }
    let (lo, whole): (usize, bool) = if has_prefix(&v, "src/") {
        (4, false)
    } else if has_prefix(&v, "/src/") {
        (5, false)
    } else if str_eq(path, "src") || str_eq(path, "/src") {
        (v.len(), false)
    } else {
        (0, true)
    };
    if lo >= v.len() {
        return None;
    }
    let r = string_of_range(&v, lo, v.len());
    proof {
        if whole {
            assert(v@.subrange(0, v@.len() as int) =~= v@);
        }
    }
    Some(r)
}

} // verus!
