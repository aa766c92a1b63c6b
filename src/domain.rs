use vstd::prelude::*;

use crate::config::ForwardedPort;
use crate::text::{push_signed, push_str, signed_decimal};

verus! {

/// What a sandbox is created from.
#[derive(Clone, Debug, PartialEq, Eq)]
pub struct SandboxConfig {
    pub image: String,
    pub setup_command: Option<String>,
    pub forwarded_ports: Vec<ForwardedPort>,
}

/// The outcome of one command run in a container.
#[derive(Clone, Debug, PartialEq, Eq)]
pub struct ExecutionResult {
    pub exit_code: i32,
    pub stdout: String,
    pub stderr: String,
}

#[derive(Clone, Debug, PartialEq, Eq)]
pub enum SandboxStatus {
    Active,
    Paused,
    Error(String),
}

/// A forwarded port as it was set up: container port `target`, published on `host_port`,
/// announced to the container through the variable `env_var`.
#[derive(Clone, Debug, PartialEq, Eq)]
pub struct ForwardedPortMapping {
    pub name: String,
    pub target: u16,
    pub host_port: u16,
    pub env_var: String,
}

/// The identity of a sandbox: its slug, branch and container.
#[derive(Clone, Debug, PartialEq, Eq)]
pub struct SandboxMetadata {
    pub name: String,
    pub branch_name: String,
    pub container_id: String,
    pub status: SandboxStatus,
    pub forwarded_ports: Vec<ForwardedPortMapping>,
}

/// Failures of the repository layer, each with the text of what went wrong underneath.
#[derive(Clone, Debug, PartialEq, Eq)]
pub enum ScmError {
    Open { detail: String },
    BranchList { detail: String },
    BranchCreate { detail: String },
    BranchDelete { detail: String },
    Archive { detail: String },
    Status { detail: String },
    IndexAdd { detail: String },
    IndexWrite { detail: String },
    IndexWriteTree { detail: String },
    Commit { detail: String },
    Signature { detail: String },
    Head { detail: String },
    Reference { detail: String },
    ApplyPatch { message: String },
}

/// Failures of the container engine: the HTTP status it answered with, if any, and its text.
#[derive(Clone, Debug, PartialEq, Eq)]
pub enum ComputeError {
    Connection { status_code: Option<u16>, detail: String },
    ImageInspect { status_code: Option<u16>, detail: String },
    ImagePull { status_code: Option<u16>, detail: String },
    ContainerProvision { status_code: Option<u16>, detail: String },
    ContainerInspect { status_code: Option<u16>, detail: String },
    ContainerPause { status_code: Option<u16>, detail: String },
    ContainerResume { status_code: Option<u16>, detail: String },
    ContainerDelete { status_code: Option<u16>, detail: String },
    ContainerExec { status_code: Option<u16>, detail: String },
    ContainerUpload { status_code: Option<u16>, detail: String },
    ContainerDownload { status_code: Option<u16>, detail: String },
}

#[derive(Clone, Debug, PartialEq, Eq)]
pub enum SandboxError {
    InvalidName { name: String, reason: String },
    SandboxExists { name: String },
    SandboxNotFound { name: String },
    Scm(ScmError),
    Compute(ComputeError),
    SetupCommandFailed { exit_code: i32, stderr: String },
    Io { detail: String },
    Config(String),
}

impl ScmError {
    pub open spec fn text(&self) -> Seq<char> {
        match self {
            ScmError::Open { detail } => "Git repository open failed: "@ + detail@,
            ScmError::BranchList { detail } => "Git branch listing failed: "@ + detail@,
            ScmError::BranchCreate { detail } => "Git branch creation failed: "@ + detail@,
            ScmError::BranchDelete { detail } => "Git branch deletion failed: "@ + detail@,
            ScmError::Archive { detail } => "Git archive failed: "@ + detail@,
            ScmError::Status { detail } => "Git status failed: "@ + detail@,
            ScmError::IndexAdd { detail } => "Git index add failed: "@ + detail@,
            ScmError::IndexWrite { detail } => "Git index write failed: "@ + detail@,
            ScmError::IndexWriteTree { detail } => "Git index write tree failed: "@ + detail@,
            ScmError::Commit { detail } => "Git commit failed: "@ + detail@,
            ScmError::Signature { detail } => "Git signature failed: "@ + detail@,
            ScmError::Head { detail } => "Git head failed: "@ + detail@,
            ScmError::Reference { detail } => "Git reference failed: "@ + detail@,
            ScmError::ApplyPatch { message } => "failed to apply patch: "@ + message@,
        }
    }

    /// The error as text.
    pub fn message(&self) -> (r: String)
        ensures
            r@ == self.text(),
    {
        let (head, detail) = match self {
            ScmError::Open { detail } => ("Git repository open failed: ", detail),
            ScmError::BranchList { detail } => ("Git branch listing failed: ", detail),
            ScmError::BranchCreate { detail } => ("Git branch creation failed: ", detail),
            ScmError::BranchDelete { detail } => ("Git branch deletion failed: ", detail),
            ScmError::Archive { detail } => ("Git archive failed: ", detail),
            ScmError::Status { detail } => ("Git status failed: ", detail),
            ScmError::IndexAdd { detail } => ("Git index add failed: ", detail),
            ScmError::IndexWrite { detail } => ("Git index write failed: ", detail),
            ScmError::IndexWriteTree { detail } => ("Git index write tree failed: ", detail),
            ScmError::Commit { detail } => ("Git commit failed: ", detail),
            ScmError::Signature { detail } => ("Git signature failed: ", detail),
            ScmError::Head { detail } => ("Git head failed: ", detail),
            ScmError::Reference { detail } => ("Git reference failed: ", detail),
            ScmError::ApplyPatch { message } => ("failed to apply patch: ", message),
        };
        let mut r = head.to_owned();
        push_str(&mut r, detail.as_str());
        r
    }
}

impl ComputeError {
    /// The HTTP status that the container engine answered with, if any.
    pub open spec fn status(&self) -> Option<u16> {
        match self {
            ComputeError::Connection { status_code, .. } => *status_code,
            ComputeError::ImageInspect { status_code, .. } => *status_code,
            ComputeError::ImagePull { status_code, .. } => *status_code,
            ComputeError::ContainerProvision { status_code, .. } => *status_code,
            ComputeError::ContainerInspect { status_code, .. } => *status_code,
            ComputeError::ContainerPause { status_code, .. } => *status_code,
            ComputeError::ContainerResume { status_code, .. } => *status_code,
            ComputeError::ContainerDelete { status_code, .. } => *status_code,
            ComputeError::ContainerExec { status_code, .. } => *status_code,
            ComputeError::ContainerUpload { status_code, .. } => *status_code,
            ComputeError::ContainerDownload { status_code, .. } => *status_code,
        }
    }

    pub open spec fn text(&self) -> Seq<char> {
        match self {
            ComputeError::Connection { detail, .. } => "Docker client connection failed: "@ + detail@,
            ComputeError::ImageInspect { detail, .. } => "Docker image inspection failed: "@ + detail@,
            ComputeError::ImagePull { detail, .. } => "Docker image pull failed: "@ + detail@,
            ComputeError::ContainerProvision { detail, .. } => "Docker container provisioning failed: "@ + detail@,
            ComputeError::ContainerInspect { detail, .. } => "Docker container inspection failed: "@ + detail@,
            ComputeError::ContainerPause { detail, .. } => "Docker pause failed: "@ + detail@,
            ComputeError::ContainerResume { detail, .. } => "Docker resume failed: "@ + detail@,
            ComputeError::ContainerDelete { detail, .. } => "Docker delete failed: "@ + detail@,
            ComputeError::ContainerExec { detail, .. } => "Docker exec failed: "@ + detail@,
            ComputeError::ContainerUpload { detail, .. } => "Docker upload failed: "@ + detail@,
            ComputeError::ContainerDownload { detail, .. } => "Docker download failed: "@ + detail@,
        }
    }

    /// The error as text.
    pub fn message(&self) -> (r: String)
        ensures
            r@ == self.text(),
    {
        let (head, detail) = match self {
            ComputeError::Connection { detail, .. } => ("Docker client connection failed: ", detail),
            ComputeError::ImageInspect { detail, .. } => ("Docker image inspection failed: ", detail),
            ComputeError::ImagePull { detail, .. } => ("Docker image pull failed: ", detail),
            ComputeError::ContainerProvision { detail, .. } => ("Docker container provisioning failed: ", detail),
            ComputeError::ContainerInspect { detail, .. } => ("Docker container inspection failed: ", detail),
            ComputeError::ContainerPause { detail, .. } => ("Docker pause failed: ", detail),
            ComputeError::ContainerResume { detail, .. } => ("Docker resume failed: ", detail),
            ComputeError::ContainerDelete { detail, .. } => ("Docker delete failed: ", detail),
            ComputeError::ContainerExec { detail, .. } => ("Docker exec failed: ", detail),
            ComputeError::ContainerUpload { detail, .. } => ("Docker upload failed: ", detail),
            ComputeError::ContainerDownload { detail, .. } => ("Docker download failed: ", detail),
        };
        let mut r = head.to_owned();
        push_str(&mut r, detail.as_str());
        r
    }
}

impl SandboxError {
    pub open spec fn text(&self) -> Seq<char> {
        match self {
            SandboxError::InvalidName { name, reason } => "Invalid sandbox name: '"@ + name@ + "'. "@
                + reason@,
            SandboxError::SandboxExists { name } => "Sandbox '"@ + name@ + "' already exists."@,
            SandboxError::SandboxNotFound { name } => "Sandbox '"@ + name@ + "' not found."@,
            SandboxError::Scm(e) => "SCM error: "@ + e.text(),
            SandboxError::Compute(e) => "Compute error: "@ + e.text(),
            SandboxError::SetupCommandFailed { exit_code, stderr } => "Setup command failed with exit code "@
                + signed_decimal(*exit_code as int) + ": "@ + stderr@,
            SandboxError::Io { detail } => "I/O error: "@ + detail@,
            SandboxError::Config(detail) => "Configuration error: "@ + detail@,
        }
    }

    /// The error as text.
    pub fn message(&self) -> (r: String)
        ensures
            r@ == self.text(),
    {
        match self {
            SandboxError::InvalidName { name, reason } => {
                let mut r = "Invalid sandbox name: '".to_owned();
                push_str(&mut r, name.as_str());
                push_str(&mut r, "'. ");
                push_str(&mut r, reason.as_str());
                r
            },
            SandboxError::SandboxExists { name } => {
                let mut r = "Sandbox '".to_owned();
                push_str(&mut r, name.as_str());
                push_str(&mut r, "' already exists.");
                r
            },
            SandboxError::SandboxNotFound { name } => {
                let mut r = "Sandbox '".to_owned();
                push_str(&mut r, name.as_str());
                push_str(&mut r, "' not found.");
                r
            },
            SandboxError::Scm(e) => {
                let mut r = "SCM error: ".to_owned();
                let m = e.message();
                push_str(&mut r, m.as_str());
                r
            },
            SandboxError::Compute(e) => {
                let mut r = "Compute error: ".to_owned();
                let m = e.message();
                push_str(&mut r, m.as_str());
                r
            },
            SandboxError::SetupCommandFailed { exit_code, stderr } => {
                let mut r = "Setup command failed with exit code ".to_owned();
                push_signed(&mut r, *exit_code as i64);
                push_str(&mut r, ": ");
                push_str(&mut r, stderr.as_str());
                r
            },
            SandboxError::Io { detail } => {
                let mut r = "I/O error: ".to_owned();
                push_str(&mut r, detail.as_str());
                r
            },
            SandboxError::Config(detail) => {
                let mut r = "Configuration error: ".to_owned();
                push_str(&mut r, detail.as_str());
                r
            },
        }
    }
}

pub open spec fn is_upper(c: char) -> bool {
    'A' <= c && c <= 'Z'
}

/// `char::to_ascii_lowercase`.
pub open spec fn lower(c: char) -> char {
    if is_upper(c) {
        ((c as u32) + 32) as char
    } else {
        c
    }
}

fn lower_exec(c: char) -> (r: char)
    ensures
        r == lower(c),
{
    if 'A' <= c && c <= 'Z' {
        ((c as u8) + 32) as char
    } else {
        c
    }
}

/// A lowercase ASCII letter or an ASCII digit.
pub open spec fn is_slug_alnum(c: char) -> bool {
    ('a' <= c && c <= 'z') || ('0' <= c && c <= '9')
}

pub open spec fn is_slug_char(c: char) -> bool {
    is_slug_alnum(c) || c == '-'
}

/// The characters of `s` lowercased, every run of other characters replaced by one `-`.
pub open spec fn collapse(s: Seq<char>) -> Seq<char>
    decreases s.len(),
{
    if s.len() == 0 {
        Seq::empty()
    } else {
        let p = collapse(s.drop_last());
        let c = lower(s.last());
        if is_slug_alnum(c) {
            p.push(c)
        } else if p.len() > 0 && p.last() == '-' {
            p
        } else {
            p.push('-')
        }
    }
}

pub open spec fn trim_dash_start(s: Seq<char>) -> Seq<char>
    decreases s.len(),
{
    if s.len() > 0 && s[0] == '-' {
        trim_dash_start(s.drop_first())
    } else {
        s
    }
}

pub open spec fn trim_dash_end(s: Seq<char>) -> Seq<char>
    decreases s.len(),
{
    if s.len() > 0 && s.last() == '-' {
        trim_dash_end(s.drop_last())
    } else {
        s
    }
}

/// The slug of a name: lowercased, each run of non-alphanumeric characters made one `-`,
/// with leading and trailing `-` removed.
pub open spec fn slug_of(s: Seq<char>) -> Seq<char> {
    trim_dash_end(trim_dash_start(collapse(s)))
}

/// Only slug characters, no `-` at either end, never two `-` in a row.
pub open spec fn slug_shaped(s: Seq<char>) -> bool {
    &&& forall|i: int| 0 <= i < s.len() ==> is_slug_char(#[trigger] s[i])
    &&& s.len() > 0 ==> s[0] != '-' && s.last() != '-'
    &&& forall|i: int| 0 <= i < s.len() - 1 ==> !(#[trigger] s[i] == '-' && s[i + 1] == '-')
}

/// A valid slug: shaped as one, 1 to 63 characters.
pub open spec fn valid_slug(s: Seq<char>) -> bool {
    &&& 1 <= s.len() <= 63
    &&& forall|i: int| 0 <= i < s.len() ==> is_slug_char(#[trigger] s[i])
}

proof fn lemma_collapse_shape(s: Seq<char>)
    ensures
        forall|i: int| 0 <= i < collapse(s).len() ==> is_slug_char(#[trigger] collapse(s)[i]),
        forall|i: int|
            0 <= i < collapse(s).len() - 1 ==> !(#[trigger] collapse(s)[i] == '-' && collapse(s)[i
                + 1] == '-'),
    decreases s.len(),
{
    if s.len() > 0 {
        let p = collapse(s.drop_last());
        lemma_collapse_shape(s.drop_last());
        let r = collapse(s);
        assert forall|i: int| 0 <= i < r.len() implies is_slug_char(#[trigger] r[i]) by {
            if i < p.len() {
                assert(r[i] == p[i]);
            }
        }
        assert forall|i: int| 0 <= i < r.len() - 1 implies !(#[trigger] r[i] == '-' && r[i + 1]
            == '-') by {
            if i + 1 < p.len() {
                assert(r[i] == p[i] && r[i + 1] == p[i + 1]);
            } else {
                assert(r[i] == p[i]);
            }
        }
    }
}

proof fn lemma_trim_start_suffix(s: Seq<char>) -> (k: int)
    ensures
        0 <= k <= s.len(),
        trim_dash_start(s) == s.subrange(k, s.len() as int),
        trim_dash_start(s).len() > 0 ==> trim_dash_start(s)[0] != '-',
    decreases s.len(),
{
    if s.len() > 0 && s[0] == '-' {
        let k = lemma_trim_start_suffix(s.drop_first());
        assert(s.drop_first().subrange(k, s.len() - 1) =~= s.subrange(k + 1, s.len() as int));
        k + 1
    } else {
        assert(s.subrange(0, s.len() as int) =~= s);
        0
    }
}

proof fn lemma_trim_end_prefix(s: Seq<char>) -> (k: int)
    ensures
        0 <= k <= s.len(),
        trim_dash_end(s) == s.subrange(0, k),
        trim_dash_end(s).len() > 0 ==> trim_dash_end(s).last() != '-',
    decreases s.len(),
{
    if s.len() > 0 && s.last() == '-' {
        let k = lemma_trim_end_prefix(s.drop_last());
        assert(s.drop_last().subrange(0, k) =~= s.subrange(0, k));
        k
    } else {
        assert(s.subrange(0, s.len() as int) =~= s);
        s.len() as int
    }
}

/// Every slug has the shape of one: `[a-z0-9-]` only, no `-` at either end, no `--`.
pub proof fn lemma_slug_shaped(s: Seq<char>)
    ensures
        slug_shaped(slug_of(s)),
{
    let c = collapse(s);
    lemma_collapse_shape(s);
    let a = lemma_trim_start_suffix(c);
    let t = trim_dash_start(c);
    let b = lemma_trim_end_prefix(t);
    let r = slug_of(s);
    assert(r == c.subrange(a, a + b));
    assert forall|i: int| 0 <= i < r.len() implies is_slug_char(#[trigger] r[i]) by {
        assert(r[i] == c[a + i]);
    }
    assert forall|i: int| 0 <= i < r.len() - 1 implies !(#[trigger] r[i] == '-' && r[i + 1] == '-') by {
        assert(r[i] == c[a + i]);
        assert(r[i + 1] == c[a + i + 1]);
    }
    if r.len() > 0 {
        assert(t.len() > 0);
        assert(r[0] == t[0]);
    }
}

/// A slug is at most 63 characters long only where the name gives one that short: then it
/// is empty or a valid slug.
pub proof fn lemma_slug_empty_or_valid(s: Seq<char>)
    requires
        slug_of(s).len() <= 63,
    ensures
        slug_of(s).len() == 0 || (valid_slug(slug_of(s)) && slug_shaped(slug_of(s))),
{
    lemma_slug_shaped(s);
}

/// Lowercases `name`, replaces each run of other characters than ASCII letters and digits by
/// one `-`, and trims `-` from both ends.
pub fn slugify(name: &str) -> (r: String)
    ensures
        r@ == slug_of(name@),
        slug_shaped(r@),
{
    let v = crate::text::chars_of(name);
    let mut raw: Vec<char> = Vec::new();
    let mut last_was_dash = false;
    let mut i: usize = 0;
    while i < v.len()
        invariant
            i <= v@.len(),
            v@ == name@,
            raw@ == collapse(v@.take(i as int)),
            last_was_dash <==> (raw@.len() > 0 && raw@.last() == '-'),
        decreases v@.len() - i,
    {
        let lc = lower_exec(v[i]);
        assert(v@.take(i + 1).drop_last() =~= v@.take(i as int));
        if ('a' <= lc && lc <= 'z') || ('0' <= lc && lc <= '9') {
            raw.push(lc);
            last_was_dash = false;
        } else if !last_was_dash {
            raw.push('-');
            last_was_dash = true;
        }
        i = i + 1;
    }
    assert(v@.take(v@.len() as int) =~= v@);
    let n = raw.len();
    let mut a: usize = 0;
    assert(raw@.subrange(0, n as int) =~= raw@);
    while a < n && raw[a] == '-'
        invariant
            a <= n == raw@.len(),
            trim_dash_start(raw@) == trim_dash_start(raw@.subrange(a as int, n as int)),
        decreases n - a,
    {
        assert(raw@.subrange(a as int, n as int).drop_first() =~= raw@.subrange(a + 1, n as int));
        a = a + 1;
    }
    let mut b: usize = n;
    while b > a && raw[b - 1] == '-'
        invariant
            a <= b <= n == raw@.len(),
            trim_dash_start(raw@) == raw@.subrange(a as int, n as int),
            trim_dash_end(trim_dash_start(raw@)) == trim_dash_end(raw@.subrange(a as int, b as int)),
        decreases b - a,
    {
        assert(raw@.subrange(a as int, b as int).drop_last() =~= raw@.subrange(a as int, b - 1));
        b = b - 1;
    }
    let r = crate::text::string_of_range(&raw, a, b);
    proof {
        lemma_slug_shaped(name@);
    }
    r
}

/// Why a name whose slug is not valid is refused.
pub open spec fn invalid_name_reason() -> Seq<char> {
    "Slugified names must be 1-63 characters and contain only [a-z0-9-]."@
}

/// `Ok` exactly when `slug` is a valid slug; otherwise `InvalidName` for `original`.
pub fn validate_slug(original: &str, slug: &str) -> (r: Result<(), SandboxError>)
    ensures
        r is Ok <==> valid_slug(slug@),
        r matches Err(e) ==> e == (SandboxError::InvalidName {
            name: e->InvalidName_name,
            reason: e->InvalidName_reason,
        }) && e->InvalidName_name@ == original@ && e->InvalidName_reason@ == invalid_name_reason(),
{
    let v = crate::text::chars_of(slug);
    let mut valid = v.len() >= 1 && v.len() <= 63;
    let mut i: usize = 0;
    while i < v.len()
        invariant
            i <= v@.len(),
            v@ == slug@,
            valid <==> (1 <= v@.len() <= 63 && forall|k: int| 0 <= k < i ==> is_slug_char(#[trigger] v@[k])),
        decreases v@.len() - i,
    {
        let c = v[i];
        if !(('a' <= c && c <= 'z') || ('0' <= c && c <= '9') || c == '-') {
            valid = false;
        }
        i = i + 1;
    }
    if valid {
        Ok(())
    } else {
        Err(SandboxError::InvalidName {
            name: original.to_owned(),
            reason: "Slugified names must be 1-63 characters and contain only [a-z0-9-].".to_owned(),
        })
    }
}

/// The slug of `name`, or `InvalidName` when that slug is not valid (empty or too long).
pub fn slugify_name(name: &str) -> (r: Result<String, SandboxError>)
    ensures
        r is Ok <==> valid_slug(slug_of(name@)),
        r matches Ok(s) ==> s@ == slug_of(name@) && slug_shaped(s@),
        r matches Err(e) ==> e == (SandboxError::InvalidName {
            name: e->InvalidName_name,
            reason: e->InvalidName_reason,
        }) && e->InvalidName_name@ == name@ && e->InvalidName_reason@ == invalid_name_reason(),
{
    let slug = slugify(name);
    match validate_slug(name, slug.as_str()) {
        Ok(()) => Ok(slug),
        Err(e) => Err(e),
    }
}

} // verus!
