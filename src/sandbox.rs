use vstd::prelude::*;

use crate::domain::{
    slug_of, ComputeError, ExecutionResult, ForwardedPortMapping, SandboxError,
    SandboxMetadata, SandboxStatus,
};
use crate::ports::{PortBindingEntry, PortSetup};
use crate::text::{chars_of, push_str, starts_with, views};

verus! {

/// `litterbox-<prefix>-<slug>`: the name of the sandbox's container.
pub open spec fn container_name(prefix: Seq<char>, slug: Seq<char>) -> Seq<char> {
    "litterbox-"@ + prefix + "-"@ + slug
}

/// `litterbox/<slug>`: the name of the sandbox's branch.
pub open spec fn branch_name(slug: Seq<char>) -> Seq<char> {
    "litterbox/"@ + slug
}

pub fn container_name_for_slug(repo_prefix: &str, slug: &str) -> (r: String)
    ensures
        r@ == container_name(repo_prefix@, slug@),
{
    let mut r = "litterbox-".to_owned();
    push_str(&mut r, repo_prefix);
    push_str(&mut r, "-");
    push_str(&mut r, slug);
    r
}

pub fn branch_name_for_slug(slug: &str) -> (r: String)
    ensures
        r@ == branch_name(slug@),
{
    let mut r = "litterbox/".to_owned();
    push_str(&mut r, slug);
    r
}

/// The repository prefix: the slug of the working tree's directory name, or `repo` when
/// there is no usable name or its slug is empty.
pub open spec fn repo_prefix_of(dir_name: Option<Seq<char>>) -> Seq<char> {
    match dir_name {
        Some(n) => if slug_of(n).len() > 0 { slug_of(n) } else { "repo"@ },
        None => "repo"@,
    }
}

pub fn repo_prefix_from_name(dir_name: Option<&str>) -> (r: String)
    ensures
        r@ == repo_prefix_of(match dir_name { Some(n) => Some(n@), None => None }),
{
    match dir_name {
        Some(n) => {
            let s = crate::domain::slugify(n);
            if s.as_str().is_empty() {
                "repo".to_owned()
            } else {
                s
            }
        },
        None => "repo".to_owned(),
    }
}

/// The metadata of a sandbox known by its slug.
pub fn metadata_for_slug(repo_prefix: &str, slug: &str, status: SandboxStatus) -> (r: SandboxMetadata)
    ensures
        r.name@ == slug@,
        r.branch_name@ == branch_name(slug@),
        r.container_id@ == container_name(repo_prefix@, slug@),
        r.status == status,
        r.forwarded_ports@.len() == 0,
{
    SandboxMetadata {
        name: slug.to_owned(),
        branch_name: branch_name_for_slug(slug),
        container_id: container_name_for_slug(repo_prefix, slug),
        status,
        forwarded_ports: Vec::new(),
    }
}

/// The sandbox provider: the repository layer and the container engine it pairs.
pub struct DockerSandboxProvider<S, C> {
    pub scm: S,
    pub compute: C,
}

impl<S, C> DockerSandboxProvider<S, C> {
    pub fn new(scm: S, compute: C) -> (r: Self)
        ensures
            r.scm == scm,
            r.compute == compute,
    {
        DockerSandboxProvider { scm, compute }
    }
}

/// What the container engine is asked to create.
#[derive(Clone, Debug, PartialEq, Eq)]
pub struct ContainerSpec {
    pub name: String,
    pub image: String,
    pub command: Vec<String>,
    pub working_dir: Option<String>,
    pub env: Vec<String>,
    pub port_bindings: Vec<PortBindingEntry>,
}

/// The container of a new sandbox: named after the repository prefix and the slug, kept
/// alive by `tail -f /dev/null`, working in `/src`, with the forwarded ports' setup.
pub fn sandbox_container_spec(repo_prefix: &str, slug: &str, image: &str, ports: PortSetup) -> (r: ContainerSpec)
    ensures
        r.name@ == container_name(repo_prefix@, slug@),
        r.image@ == image@,
        views(r.command@) == crate::tools::sh_argv("tail -f /dev/null"@),
        r.working_dir matches Some(w) && w@ == "/src"@,
        r.env == ports.env,
        r.port_bindings == ports.port_bindings,
{
    ContainerSpec {
        name: container_name_for_slug(repo_prefix, slug),
        image: image.to_owned(),
        command: crate::tools::sh_command("tail -f /dev/null".to_owned()),
        working_dir: Some("/src".to_owned()),
        env: ports.env,
        port_bindings: ports.port_bindings,
    }
}

/// The steps of creating a sandbox, in the order they run.
#[derive(Clone, Copy, Debug, PartialEq, Eq, Structural)]
pub enum CreateStep {
    CreateBranch,
    RepoPrefix,
    MakeArchive,
    StageArchive,
    EnsureImage,
    AllocatePorts,
    CreateContainer,
    Upload,
    Setup,
}

/// The position of a step in the pipeline.
pub open spec fn step_index(s: CreateStep) -> int {
    match s {
        CreateStep::CreateBranch => 0,
        CreateStep::RepoPrefix => 1,
        CreateStep::MakeArchive => 2,
        CreateStep::StageArchive => 3,
        CreateStep::EnsureImage => 4,
        CreateStep::AllocatePorts => 5,
        CreateStep::CreateContainer => 6,
        CreateStep::Upload => 7,
        CreateStep::Setup => 8,
    }
}

/// The undoing of a step that made something.
#[derive(Clone, Copy, Debug, PartialEq, Eq, Structural)]
pub enum Undo {
    DeleteContainer,
    DeleteBranch,
}

/// What undoes the steps that completed before `failed`, latest first: the container once
/// it was created, then the branch once it was created.
pub open spec fn rollback(failed: CreateStep) -> Seq<Undo> {
    if step_index(failed) > step_index(CreateStep::CreateContainer) {
        seq![Undo::DeleteContainer, Undo::DeleteBranch]
    } else if step_index(failed) > step_index(CreateStep::CreateBranch) {
        seq![Undo::DeleteBranch]
    } else {
        Seq::empty()
    }
}

/// The teardown to run when step `failed` fails, in order.
pub fn rollback_for(failed: CreateStep) -> (r: Vec<Undo>)
    ensures
        r@ == rollback(failed),
{
    let mut r: Vec<Undo> = Vec::new();
    match failed {
        CreateStep::CreateBranch => {},
        CreateStep::Upload | CreateStep::Setup => {
            r.push(Undo::DeleteContainer);
            r.push(Undo::DeleteBranch);
        },
        _ => {
            r.push(Undo::DeleteBranch);
        },
    }
    assert(r@ =~= rollback(failed));
    r
}

/// Creating the container failed because its name is taken (engine status 409).
pub open spec fn name_conflict(failed: CreateStep, error: SandboxError) -> bool {
    failed == CreateStep::CreateContainer && match error {
        SandboxError::Compute(ComputeError::ContainerProvision { status_code, .. }) => status_code == Some(409u16),
        _ => false,
    }
}

/// The error that a failed create reports: a name conflict on creating the container
/// (engine status 409) becomes `SandboxExists`; every other error is reported as it came.
pub fn create_failure(failed: CreateStep, slug: &str, error: SandboxError) -> (r: SandboxError)
    ensures
        name_conflict(failed, error) ==> r is SandboxExists && r->SandboxExists_name@ == slug@,
        !name_conflict(failed, error) ==> r == error,
{
    let conflict = match &error {
        SandboxError::Compute(ComputeError::ContainerProvision { status_code: Some(c), .. }) => *c == 409,
        _ => false,
    };
    if failed == CreateStep::CreateContainer && conflict {
        SandboxError::SandboxExists { name: slug.to_owned() }
    } else {
        error
    }
}

/// The outcome of the setup command: success on exit 0, otherwise `SetupCommandFailed` with
/// its exit code and its stderr, or its stdout when stderr is empty.
pub fn setup_outcome(result: ExecutionResult) -> (r: Result<(), SandboxError>)
    ensures
        result.exit_code == 0 <==> r is Ok,
        r matches Err(e) ==> e == (SandboxError::SetupCommandFailed {
            exit_code: result.exit_code,
            stderr: if result.stderr@.len() == 0 { result.stdout } else { result.stderr },
        }),
{
    if result.exit_code == 0 {
        Ok(())
    } else {
        let stderr = if result.stderr.as_str().is_empty() { result.stdout } else { result.stderr };
        Err(SandboxError::SetupCommandFailed { exit_code: result.exit_code, stderr })
    }
}

/// The metadata of a sandbox that was just created: active, named by its slug, with its
/// branch `litterbox/<slug>`, its container `litterbox-<prefix>-<slug>`, and its forwarded
/// ports.
pub fn created_metadata(repo_prefix: &str, slug: &str, forwarded_ports: Vec<ForwardedPortMapping>) -> (r: SandboxMetadata)
    ensures
        r.name@ == slug@,
        r.branch_name@ == branch_name(slug@),
        r.container_id@ == container_name(repo_prefix@, slug@),
        r.status == SandboxStatus::Active,
        r.forwarded_ports == forwarded_ports,
{
    SandboxMetadata {
        name: slug.to_owned(),
        branch_name: branch_name_for_slug(slug),
        container_id: container_name_for_slug(repo_prefix, slug),
        status: SandboxStatus::Active,
        forwarded_ports,
    }
}

/// The branches and containers that exist.
pub struct World {
    pub branches: Set<Seq<char>>,
    pub containers: Set<Seq<char>>,
}

/// What a completed step leaves behind for a sandbox with branch `b` and container `c`.
pub open spec fn after_step(w: World, s: CreateStep, b: Seq<char>, c: Seq<char>) -> World {
    match s {
        CreateStep::CreateBranch => World { branches: w.branches.insert(b), containers: w.containers },
        CreateStep::CreateContainer => World { branches: w.branches, containers: w.containers.insert(c) },
        _ => w,
    }
}

pub open spec fn after_undo(w: World, u: Undo, b: Seq<char>, c: Seq<char>) -> World {
    match u {
        Undo::DeleteBranch => World { branches: w.branches.remove(b), containers: w.containers },
        Undo::DeleteContainer => World { branches: w.branches, containers: w.containers.remove(c) },
    }
}

/// The steps in pipeline order.
pub open spec fn pipeline() -> Seq<CreateStep> {
    seq![
        CreateStep::CreateBranch,
        CreateStep::RepoPrefix,
        CreateStep::MakeArchive,
        CreateStep::StageArchive,
        CreateStep::EnsureImage,
        CreateStep::AllocatePorts,
        CreateStep::CreateContainer,
        CreateStep::Upload,
        CreateStep::Setup,
    ]
}

pub open spec fn run_steps(w: World, steps: Seq<CreateStep>, b: Seq<char>, c: Seq<char>) -> World
    decreases steps.len(),
{
    if steps.len() == 0 {
        w
    } else {
        after_step(run_steps(w, steps.drop_last(), b, c), steps.last(), b, c)
    }
}

pub open spec fn run_undos(w: World, undos: Seq<Undo>, b: Seq<char>, c: Seq<char>) -> World
    decreases undos.len(),
{
    if undos.len() == 0 {
        w
    } else {
        after_undo(run_undos(w, undos.drop_last(), b, c), undos.last(), b, c)
    }
}

/// Deleting a sandbox removes its container, then its branch.
pub open spec fn delete_plan() -> Seq<Undo> {
    seq![Undo::DeleteContainer, Undo::DeleteBranch]
}

proof fn lemma_prefix_world(w: World, b: Seq<char>, c: Seq<char>, i: int)
    requires
        0 <= i <= 9,
    ensures
        run_steps(w, pipeline().take(i), b, c).branches == (if i > 0 { w.branches.insert(b) } else { w.branches }),
        run_steps(w, pipeline().take(i), b, c).containers == (if i > 6 { w.containers.insert(c) } else { w.containers }),
    decreases i,
{
    let p = pipeline();
    if i == 0 {
        assert(p.take(0) =~= Seq::<CreateStep>::empty());
    } else {
        lemma_prefix_world(w, b, c, i - 1);
        assert(p.take(i).drop_last() =~= p.take(i - 1));
        assert(p.take(i).last() == p[i - 1]);
        if i > 1 {
            assert(w.branches.insert(b).insert(b) =~= w.branches.insert(b));
        }
    }
}

/// A create that completes leaves the sandbox's branch and container in place; one that fails
/// at any step, once the steps before it are undone, leaves neither; and deleting a created
/// sandbox removes both.
pub proof fn lemma_create_all_or_nothing(w: World, b: Seq<char>, c: Seq<char>, k: int)
    requires
        !w.branches.contains(b),
        !w.containers.contains(c),
        0 <= k < 9,
    ensures
        run_steps(w, pipeline(), b, c).branches.contains(b),
        run_steps(w, pipeline(), b, c).containers.contains(c),
        run_undos(run_steps(w, pipeline().take(k), b, c), rollback(pipeline()[k]), b, c).branches == w.branches,
        run_undos(run_steps(w, pipeline().take(k), b, c), rollback(pipeline()[k]), b, c).containers == w.containers,
        run_undos(run_steps(w, pipeline(), b, c), delete_plan(), b, c).branches == w.branches,
        run_undos(run_steps(w, pipeline(), b, c), delete_plan(), b, c).containers == w.containers,
{
    let p = pipeline();
    lemma_prefix_world(w, b, c, 9);
    lemma_prefix_world(w, b, c, k);
    assert(p.take(9) =~= p);
    let s = run_steps(w, p.take(k), b, c);
    assert(rollback(p[k]) == (if k > 6 { seq![Undo::DeleteContainer, Undo::DeleteBranch] } else if k > 0 { seq![Undo::DeleteBranch] } else { Seq::<Undo>::empty() }));
    assert(w.branches.insert(b).remove(b) =~= w.branches);
    assert(w.containers.insert(c).remove(c) =~= w.containers);
    let u = rollback(p[k]);
    if k > 6 {
        assert(u.drop_last().drop_last() =~= Seq::<Undo>::empty());
        assert(u.drop_last() =~= seq![Undo::DeleteContainer]);
        let s1 = run_undos(s, u.drop_last(), b, c);
        assert(s1 == after_undo(run_undos(s, u.drop_last().drop_last(), b, c), Undo::DeleteContainer, b, c));
        assert(run_undos(s, u, b, c) == after_undo(s1, Undo::DeleteBranch, b, c));
    } else if k > 0 {
        assert(u.drop_last() =~= Seq::<Undo>::empty());
        assert(run_undos(s, u, b, c) == after_undo(run_undos(s, u.drop_last(), b, c), Undo::DeleteBranch, b, c));
    } else {
        assert(u =~= Seq::<Undo>::empty());
    }
    let d = delete_plan();
    let f = run_steps(w, p, b, c);
    assert(d.drop_last().drop_last() =~= Seq::<Undo>::empty());
    assert(d.drop_last() =~= seq![Undo::DeleteContainer]);
    let f1 = run_undos(f, d.drop_last(), b, c);
    assert(f1 == after_undo(run_undos(f, d.drop_last().drop_last(), b, c), Undo::DeleteContainer, b, c));
    assert(run_undos(f, d, b, c) == after_undo(f1, Undo::DeleteBranch, b, c));
}

/// The step after `last` (the first one when `None`), in pipeline order; the setup step
/// runs only when a setup command is configured. `None` once the pipeline is complete.
pub open spec fn next_step(last: Option<CreateStep>, has_setup: bool) -> Option<CreateStep> {
    let k = match last {
        None => 0,
        Some(s) => step_index(s) + 1,
    };
    if k >= 9 || (k == 8 && !has_setup) {
        None
    } else {
        Some(pipeline()[k])
    }
}

pub fn next_create_step(last: Option<CreateStep>, has_setup: bool) -> (r: Option<CreateStep>)
    ensures
        r == next_step(last, has_setup),
{
    match last {
        None => Some(CreateStep::CreateBranch),
        Some(CreateStep::CreateBranch) => Some(CreateStep::RepoPrefix),
        Some(CreateStep::RepoPrefix) => Some(CreateStep::MakeArchive),
        Some(CreateStep::MakeArchive) => Some(CreateStep::StageArchive),
        Some(CreateStep::StageArchive) => Some(CreateStep::EnsureImage),
        Some(CreateStep::EnsureImage) => Some(CreateStep::AllocatePorts),
        Some(CreateStep::AllocatePorts) => Some(CreateStep::CreateContainer),
        Some(CreateStep::CreateContainer) => Some(CreateStep::Upload),
        Some(CreateStep::Upload) => if has_setup { Some(CreateStep::Setup) } else { None },
        Some(CreateStep::Setup) => None,
    }
}

/// Whether `delete` without `--force` refuses: the container is running and not paused.
pub fn delete_refused(running: bool, paused: bool, force: bool) -> (r: bool)
    ensures
        r == (running && !paused && !force),
{
    running && !paused && !force
}

/// The status that a container's state gives: paused, else active when running, else an
/// error that says it is not running.
pub fn status_from_state(running: bool, paused: bool) -> (r: SandboxStatus)
    ensures
        paused ==> r == SandboxStatus::Paused,
        !paused && running ==> r == SandboxStatus::Active,
        !paused && !running ==> r is Error && r->Error_0@ == "not running"@,
{
    if paused {
        SandboxStatus::Paused
    } else if running {
        SandboxStatus::Active
    } else {
        SandboxStatus::Error("not running".to_owned())
    }
}

/// How a status is listed: `active`, `paused`, `missing` for a missing container, `unknown`
/// when the engine is unavailable, else `error: <reason>`.
pub open spec fn status_text(s: SandboxStatus) -> Seq<char> {
    match s {
        SandboxStatus::Active => "active"@,
        SandboxStatus::Paused => "paused"@,
        SandboxStatus::Error(m) => if m@ == "missing container"@ {
            "missing"@
        } else if m@ == "docker unavailable"@ {
            "unknown"@
        } else {
            "error: "@ + m@
        },
    }
}

pub fn status_label(status: &SandboxStatus) -> (r: String)
    ensures
        r@ == status_text(*status),
{
    match status {
        SandboxStatus::Active => "active".to_owned(),
        SandboxStatus::Paused => "paused".to_owned(),
        SandboxStatus::Error(m) => {
            if crate::text::str_eq(m.as_str(), "missing container") {
                "missing".to_owned()
            } else if crate::text::str_eq(m.as_str(), "docker unavailable") {
                "unknown".to_owned()
            } else {
                let mut r = "error: ".to_owned();
                push_str(&mut r, m.as_str());
                r
            }
        },
    }
}

/// Whether a container found system-wide is paused by `pause --all-repos`: one of its names
/// starts with `/litterbox-` and it is running.
pub fn pause_all_selects(names: &Vec<String>, running: bool) -> (r: bool)
    ensures
        r == (running && exists|i: int| 0 <= i < names@.len() && starts_with((#[trigger] names@[i])@, "/litterbox-"@)),
{
    if !running {
        return false;
    }
    let mut i: usize = 0;
    while i < names.len()
        invariant
            running,
            i <= names@.len(),
            forall|k: int| 0 <= k < i ==> !starts_with((#[trigger] names@[k])@, "/litterbox-"@),
        decreases names@.len() - i,
    {
        if text_starts_with(names[i].as_str(), "/litterbox-") {
            assert(starts_with(names@[i as int]@, "/litterbox-"@));
            return true;
        }
        i = i + 1;
    }
    false
}

fn text_starts_with(s: &str, p: &str) -> (r: bool)
    ensures
        r == starts_with(s@, p@),
{
    let v = chars_of(s);
    let w = chars_of(p);
    if w.len() > v.len() {
        return false;
    }
    let mut i: usize = 0;
    while i < w.len()
        invariant
            i <= w@.len() <= v@.len(),
            v@ == s@,
            w@ == p@,
            forall|k: int| 0 <= k < i ==> v@[k] == w@[k],
        decreases w@.len() - i,
    {
        if v[i] != w[i] {
            assert(v@.subrange(0, w@.len() as int)[i as int] != w@[i as int]);
            return false;
        }
        i = i + 1;
    }
    assert(v@.subrange(0, w@.len() as int) =~= w@);
    true
}

/// The exit status of the `shell` command: the command's own when it fits in a byte, else 1.
pub fn shell_exit_status(exit_code: i32) -> (r: u8)
    ensures
        0 <= exit_code <= 255 ==> r as int == exit_code,
        !(0 <= exit_code <= 255) ==> r == 1,
{
    if 0 <= exit_code && exit_code <= 255 {
        exit_code as u8
    } else {
        1
    }
}

} // verus!
