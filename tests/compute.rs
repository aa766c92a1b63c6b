use litterbox::compute::{
    collect_exec_output, docker_endpoint, download_target, exec_exit_code, idempotent_outcome,
    is_not_found, ContainerVerb, Endpoint, ExecFrame,
};
use litterbox::domain::ComputeError;

#[test]
fn exec_frames_split_into_streams() {
    let frames = vec![
        ExecFrame::StdOut(b"he".to_vec()),
        ExecFrame::StdIn(b"ignored".to_vec()),
        ExecFrame::StdErr(b"oops".to_vec()),
        ExecFrame::Console(b"llo\n".to_vec()),
    ];
    let (out, err) = collect_exec_output(&frames);
    assert_eq!(out, b"hello\n".to_vec());
    assert_eq!(err, b"oops".to_vec());
}

#[test]
fn exec_exit_codes_saturate() {
    assert_eq!(exec_exit_code(Some(3)), 3);
    assert_eq!(exec_exit_code(Some(-1)), -1);
    assert_eq!(exec_exit_code(Some(1 << 40)), i32::MAX);
    assert_eq!(exec_exit_code(None), i32::MAX);
}

#[test]
fn idempotent_verbs_swallow_already_done() {
    assert!(idempotent_outcome(ContainerVerb::Pause, Some(409), "x".to_string()).is_ok());
    assert!(idempotent_outcome(ContainerVerb::Resume, Some(409), "x".to_string()).is_ok());
    assert!(idempotent_outcome(ContainerVerb::Delete, Some(404), "x".to_string()).is_ok());
    assert!(idempotent_outcome(ContainerVerb::Delete, Some(409), "x".to_string()).is_ok());
    assert!(idempotent_outcome(ContainerVerb::Pause, Some(404), "x".to_string()).is_ok());
    assert!(idempotent_outcome(ContainerVerb::Resume, Some(404), "x".to_string()).is_ok());
    assert_eq!(
        idempotent_outcome(ContainerVerb::Delete, Some(500), "x".to_string()),
        Err(ComputeError::ContainerDelete { status_code: Some(500), detail: "x".to_string() })
    );
    assert_eq!(
        idempotent_outcome(ContainerVerb::Pause, None, "x".to_string()),
        Err(ComputeError::ContainerPause { status_code: None, detail: "x".to_string() })
    );
}

#[test]
fn download_targets_strip_src_and_skip_git() {
    assert_eq!(download_target("src/a/b.txt").as_deref(), Some("a/b.txt"));
    assert_eq!(download_target("/src/a").as_deref(), Some("a"));
    assert_eq!(download_target("src"), None);
    assert_eq!(download_target("src/"), None);
    assert_eq!(download_target("src/.git/config"), None);
    assert_eq!(download_target(".git"), None);
    assert_eq!(download_target("/src/.git/config"), None);
    assert_eq!(download_target("/src/.git"), None);
    assert_eq!(download_target(".gitignore").as_deref(), Some(".gitignore"));
    assert_eq!(download_target("other/x").as_deref(), Some("other/x"));
}

#[test]
fn engine_endpoints_from_host_strings() {
    assert_eq!(docker_endpoint("unix:///var/run/docker.sock"), Endpoint::Unix("/var/run/docker.sock".to_string()));
    assert_eq!(docker_endpoint("/run/docker.sock"), Endpoint::Unix("/run/docker.sock".to_string()));
    assert_eq!(docker_endpoint("tcp://10.0.0.1:2375"), Endpoint::Http("http://10.0.0.1:2375".to_string()));
    assert_eq!(docker_endpoint("npipe:////./pipe/docker"), Endpoint::LocalDefaults);
    assert_eq!(docker_endpoint(""), Endpoint::Unix(String::new()));
}

#[test]
fn not_found_is_status_404() {
    assert!(is_not_found(Some(404)));
    assert!(!is_not_found(Some(409)));
    assert!(!is_not_found(None));
}
