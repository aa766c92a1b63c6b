use litterbox::domain::{ComputeError, ExecutionResult, SandboxError, SandboxStatus};
use litterbox::ports::PortSetup;
use litterbox::sandbox::{
    branch_name_for_slug, container_name_for_slug, create_failure, created_metadata, delete_refused,
    metadata_for_slug, next_create_step, pause_all_selects, repo_prefix_from_name, rollback_for,
    sandbox_container_spec, setup_outcome, shell_exit_status, status_from_state, status_label,
    CreateStep, Undo,
};

#[test]
fn names_of_a_sandbox() {
    assert_eq!(container_name_for_slug("repo", "my-feature"), "litterbox-repo-my-feature");
    assert_eq!(branch_name_for_slug("my-feature"), "litterbox/my-feature");
    let m = metadata_for_slug("repo", "my-feature", SandboxStatus::Active);
    assert_eq!(m.name, "my-feature");
    assert_eq!(m.branch_name, "litterbox/my-feature");
    assert_eq!(m.container_id, "litterbox-repo-my-feature");
    assert!(m.forwarded_ports.is_empty());
}

#[test]
fn repo_prefix_falls_back_to_repo() {
    assert_eq!(repo_prefix_from_name(Some("My Project")), "my-project");
    assert_eq!(repo_prefix_from_name(Some("!!!")), "repo");
    assert_eq!(repo_prefix_from_name(None), "repo");
}

#[test]
fn setup_failure_reports_exit_code_and_output() {
    let r = ExecutionResult { exit_code: 7, stdout: "out".to_string(), stderr: String::new() };
    assert_eq!(
        setup_outcome(r).unwrap_err(),
        SandboxError::SetupCommandFailed { exit_code: 7, stderr: "out".to_string() }
    );
    let r = ExecutionResult { exit_code: 7, stdout: "out".to_string(), stderr: "err".to_string() };
    assert_eq!(
        setup_outcome(r).unwrap_err(),
        SandboxError::SetupCommandFailed { exit_code: 7, stderr: "err".to_string() }
    );
    let r = ExecutionResult { exit_code: 0, stdout: String::new(), stderr: String::new() };
    assert!(setup_outcome(r).is_ok());
}

#[test]
fn rollback_undoes_completed_steps() {
    assert_eq!(rollback_for(CreateStep::CreateBranch), vec![]);
    assert_eq!(rollback_for(CreateStep::EnsureImage), vec![Undo::DeleteBranch]);
    assert_eq!(rollback_for(CreateStep::AllocatePorts), vec![Undo::DeleteBranch]);
    assert_eq!(rollback_for(CreateStep::CreateContainer), vec![Undo::DeleteBranch]);
    assert_eq!(rollback_for(CreateStep::Setup), vec![Undo::DeleteContainer, Undo::DeleteBranch]);
}

#[test]
fn name_conflict_becomes_sandbox_exists() {
    let conflict = SandboxError::Compute(ComputeError::ContainerProvision { status_code: Some(409), detail: "conflict".to_string() });
    assert_eq!(
        create_failure(CreateStep::CreateContainer, "x", conflict.clone()),
        SandboxError::SandboxExists { name: "x".to_string() }
    );
    assert_eq!(create_failure(CreateStep::Upload, "x", conflict.clone()), conflict);
}

#[test]
fn container_spec_for_a_sandbox() {
    let setup = PortSetup { env: vec!["A=1".to_string()], port_bindings: vec![], mappings: vec![] };
    let spec = sandbox_container_spec("repo", "s", "busybox:latest", setup);
    assert_eq!(spec.name, "litterbox-repo-s");
    assert_eq!(spec.command, vec!["sh", "-c", "tail -f /dev/null"]);
    assert_eq!(spec.working_dir.as_deref(), Some("/src"));
    assert_eq!(spec.env, vec!["A=1"]);
}

#[test]
fn cli_decisions() {
    assert!(delete_refused(true, false, false));
    assert!(!delete_refused(true, true, false));
    assert!(!delete_refused(true, false, true));
    assert_eq!(status_from_state(true, true), SandboxStatus::Paused);
    assert_eq!(status_from_state(true, false), SandboxStatus::Active);
    assert_eq!(status_label(&status_from_state(false, false)), "error: not running");
    assert_eq!(status_label(&SandboxStatus::Error("missing container".to_string())), "missing");
    assert_eq!(status_label(&SandboxStatus::Error("docker unavailable".to_string())), "unknown");
    assert!(pause_all_selects(&vec!["/litterbox-repo-x".to_string()], true));
    assert!(!pause_all_selects(&vec!["/litterbox-repo-x".to_string()], false));
    assert!(!pause_all_selects(&vec!["/other".to_string()], true));
    assert_eq!(shell_exit_status(0), 0);
    assert_eq!(shell_exit_status(7), 7);
    assert_eq!(shell_exit_status(300), 1);
    assert_eq!(shell_exit_status(-1), 1);
}

#[test]
fn create_steps_run_in_order() {
    let mut steps = Vec::new();
    let mut step = next_create_step(None, true);
    while let Some(s) = step {
        steps.push(s);
        step = next_create_step(Some(s), true);
    }
    assert_eq!(steps.len(), 9);
    assert_eq!(steps[0], CreateStep::CreateBranch);
    assert_eq!(steps[8], CreateStep::Setup);
    assert_eq!(next_create_step(Some(CreateStep::Upload), false), None);
}

#[test]
fn created_metadata_names_container_by_convention() {
    let m = created_metadata("repo", "my-feature", vec![]);
    assert_eq!(m.name, "my-feature");
    assert_eq!(m.branch_name, "litterbox/my-feature");
    assert_eq!(m.container_id, "litterbox-repo-my-feature");
    assert_eq!(m.status, SandboxStatus::Active);
    assert!(m.forwarded_ports.is_empty());
}
