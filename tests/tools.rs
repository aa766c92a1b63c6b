use litterbox::domain::{ComputeError, ExecutionResult, SandboxError};
use litterbox::tools::{
    build_bash_command, build_grep_command, classify_failure, glob_select, grep_outcome,
    list_script, map_sandbox_error, map_tool_error, parse_find_output, parse_ls_output,
    patch_content, read_script, resolve_container_path, shell_escape, slice_content,
    snapshot_message, strip_base_prefix, write_script, FaultKind, SnapshotTrigger, Tool,
    ToolError,
};

fn failed(exit_code: i32, stdout: &str, stderr: &str) -> ExecutionResult {
    ExecutionResult { exit_code, stdout: stdout.to_string(), stderr: stderr.to_string() }
}

#[test]
fn build_bash_command_with_workdir() {
    let command = build_bash_command("ls", Some("dir"), None);
    assert!(command.contains("cd '/src/dir'"));
    assert!(command.contains("&& ls"));
}

#[test]
fn build_bash_command_with_timeout() {
    let command = build_bash_command("sleep 5", None, Some(3));
    assert!(command.starts_with("timeout 3s sh -c"));
    assert!(command.contains("sleep 5"));
}

#[test]
fn build_bash_command_with_workdir_and_timeout() {
    let command = build_bash_command("ls -la", Some("dir"), Some(5));
    assert!(command.starts_with("timeout 5s sh -c"));
    assert!(command.contains("/src/dir"));
    assert!(command.contains("ls -la"));
}

#[test]
fn build_bash_command_exact() {
    assert_eq!(
        build_bash_command("ls", Some("dir"), Some(10)),
        "timeout 10s sh -c 'cd '\"'\"'/src/dir'\"'\"' && ls'"
    );
    assert_eq!(build_bash_command("echo hi", None, None), "echo hi");
}

#[test]
fn resolve_container_path_relative() {
    assert_eq!(resolve_container_path("README.md"), "/src/README.md");
    assert_eq!(resolve_container_path("/etc/hosts"), "/etc/hosts");
}

#[test]
fn shell_escape_handles_quotes() {
    assert_eq!(shell_escape("a'b"), "'a'\"'\"'b'");
}

#[test]
fn shell_escape_plain_and_empty() {
    assert_eq!(shell_escape(""), "''");
    assert_eq!(shell_escape("a b"), "'a b'");
}

#[test]
fn snapshot_message_for_triggers() {
    assert_eq!(
        snapshot_message(&SnapshotTrigger::Write {
            path: "README.md".to_string()
        }),
        "write: README.md"
    );
    assert_eq!(
        snapshot_message(&SnapshotTrigger::Patch {
            path: "src/lib.rs".to_string()
        }),
        "patch: src/lib.rs"
    );
    assert_eq!(
        snapshot_message(&SnapshotTrigger::Bash {
            command: "cargo test".to_string()
        }),
        "bash: cargo test"
    );
}

#[test]
fn scripts_quote_their_arguments() {
    assert_eq!(read_script("/src/README.md"), "cat -- '/src/README.md'");
    assert_eq!(write_script("/src/file.txt", "hello"), "printf %s 'hello' > '/src/file.txt'");
    assert_eq!(list_script("/src/dir", false), "ls -1A '/src/dir'");
    assert_eq!(list_script("/src/dir", true), "find '/src/dir' -mindepth 1 -print");
    assert_eq!(build_grep_command("hello", "/src/dir", None), "grep -R -n -- 'hello' '/src/dir'");
    assert_eq!(
        build_grep_command("hello", "/src/dir", Some("*.rs")),
        "grep -R -n --include='*.rs' -- 'hello' '/src/dir'"
    );
}

#[test]
fn read_file_slice_content() {
    assert_eq!(slice_content("one\ntwo\nthree\n", Some(1), Some(1)), "two\n");
    assert_eq!(slice_content("one\ntwo\nthree\n", None, None), "one\ntwo\nthree\n");
    assert_eq!(slice_content("one\ntwo\n", Some(5), None), "");
    assert_eq!(slice_content("one\ntwo", Some(1), None), "two");
    assert_eq!(slice_content("one\ntwo\n", None, Some(0)), "");
}

#[test]
fn ls_output_sorted_and_relative() {
    let out = "/src/dir/subdir\n/src/dir/subdir/child.txt\n/src/dir/file.txt\n";
    assert_eq!(parse_ls_output(out, "/src/dir", true), vec!["file.txt", "subdir", "subdir/child.txt"]);
    assert_eq!(parse_ls_output("subdir\r\nfile.txt\n\n", "/src/dir", false), vec!["file.txt", "subdir"]);
    assert!(parse_ls_output("", "/src/dir", false).is_empty());
}

#[test]
fn find_output_and_prefix_stripping() {
    assert_eq!(parse_find_output("a\n\nb\r\n"), vec!["a", "b"]);
    assert_eq!(strip_base_prefix("/src/dir/a", "/src/dir"), "a");
    assert_eq!(strip_base_prefix("/other/a", "/src/dir"), "/other/a");
}

#[test]
fn classify_ls_failure_permission_denied() {
    let error = classify_failure("/src/secret", None, &failed(1, "", "ls: /src/secret: Permission denied"));
    match error {
        ToolError::PermissionDenied { path } => assert_eq!(path, "/src/secret"),
        other => panic!("unexpected error: {other:?}"),
    }
}

#[test]
fn classify_ls_failure_not_found() {
    let error = classify_failure("/src/missing", None, &failed(1, "", "ls: /src/missing: No such file or directory"));
    match error {
        ToolError::NotFound { path } => assert_eq!(path, "/src/missing"),
        other => panic!("unexpected error: {other:?}"),
    }
}

#[test]
fn classify_read_failure_permission_denied() {
    let error = classify_failure("/src/secret", None, &failed(1, "", "cat: /src/secret: Permission denied"));
    match error {
        ToolError::PermissionDenied { path } => assert_eq!(path, "/src/secret"),
        other => panic!("unexpected error: {other:?}"),
    }
}

#[test]
fn classify_read_failure_invalid_path() {
    let error = classify_failure("/src/dir", None, &failed(1, "", "cat: /src/dir: Is a directory"));
    match error {
        ToolError::Failed { path, message } => {
            assert_eq!(path, "/src/dir");
            assert!(message.contains("Is a directory"));
        }
        other => panic!("unexpected error: {other:?}"),
    }
}

#[test]
fn classify_failure_empty_message_and_stdout() {
    assert_eq!(
        classify_failure("/p", None, &failed(2, "  ", " \n")),
        ToolError::Failed { path: "/p".to_string(), message: "exit code 2".to_string() }
    );
    assert_eq!(
        classify_failure("/p", None, &failed(2, " oops \n", "")),
        ToolError::Failed { path: "/p".to_string(), message: "oops".to_string() }
    );
    assert_eq!(
        classify_failure("/p", None, &failed(2, "", "grep: Unmatched [")),
        ToolError::Failed { path: "/p".to_string(), message: "grep: Unmatched [".to_string() }
    );
}

#[test]
fn grep_in_sandbox_no_matches() {
    assert_eq!(grep_outcome("/src/dir", "hello", &failed(1, "", "")).unwrap(), Vec::<String>::new());
}

#[test]
fn grep_outcomes() {
    let lines = grep_outcome("/src/dir", "hello", &failed(0, "/src/dir/file.txt:1:hello\n/src/dir/sub/file.rs:2:hello\n", "")).unwrap();
    assert_eq!(lines, vec!["/src/dir/file.txt:1:hello", "/src/dir/sub/file.rs:2:hello"]);
    let err = grep_outcome("/src/dir", "[", &failed(2, "", "grep: Unmatched [")).unwrap_err();
    assert_eq!(err, ToolError::InvalidPattern { pattern: "[".to_string(), message: "grep: Unmatched [".to_string() });
    let fault = map_tool_error(Tool::Grep, "sandbox", &err);
    assert_eq!(fault.kind, FaultKind::InvalidParams);
    assert!(fault.message.contains("invalid grep pattern"));
    let err = grep_outcome("/src/dir", "hello", &failed(2, "", "grep: /src/dir: No such file or directory")).unwrap_err();
    assert_eq!(err, ToolError::NotFound { path: "/src/dir".to_string() });
}

#[test]
fn map_grep_error_invalid_pattern_message() {
    let error = map_tool_error(
        Tool::Grep,
        "sandbox",
        &ToolError::InvalidPattern { pattern: "[".to_string(), message: "Unmatched [".to_string() },
    );
    assert!(error.message.contains("invalid grep pattern"));
}

fn missing_sandbox() -> ToolError {
    ToolError::Sandbox(SandboxError::SandboxNotFound { name: "missing".to_string() })
}

#[test]
fn map_ls_error_missing_sandbox() {
    let error = map_tool_error(Tool::Ls, "missing", &missing_sandbox());
    assert!(error.message.contains("Sandbox 'missing' not found."));
}

#[test]
fn map_grep_error_missing_sandbox() {
    let error = map_tool_error(Tool::Grep, "missing", &missing_sandbox());
    assert!(error.message.contains("Sandbox 'missing' not found."));
}

#[test]
fn map_glob_error_missing_sandbox() {
    let error = map_tool_error(Tool::Glob, "missing", &missing_sandbox());
    assert!(error.message.contains("Sandbox 'missing' not found."));
}

#[test]
fn map_read_error_missing_sandbox() {
    let error = map_tool_error(Tool::Read, "missing", &missing_sandbox());
    assert!(error.message.contains("Sandbox 'missing' not found."));
}

#[test]
fn map_write_error_missing_sandbox() {
    let error = map_tool_error(Tool::Write, "missing", &missing_sandbox());
    assert!(error.message.contains("Sandbox 'missing' not found."));
}

#[test]
fn map_bash_error_missing_sandbox() {
    let error = map_tool_error(Tool::Bash, "missing", &missing_sandbox());
    assert!(error.message.contains("Sandbox 'missing' not found."));
}

#[test]
fn engine_404_becomes_sandbox_not_found() {
    for e in [
        SandboxError::Compute(ComputeError::ContainerExec { status_code: Some(404), detail: "no such container".to_string() }),
        SandboxError::Compute(ComputeError::ContainerInspect { status_code: Some(404), detail: "no such container".to_string() }),
    ] {
        let fault = map_sandbox_error("box", &e);
        assert_eq!(fault.kind, FaultKind::InvalidParams);
        assert_eq!(fault.message, "Sandbox 'box' not found.");
    }
    let other = SandboxError::Compute(ComputeError::ContainerExec { status_code: Some(500), detail: "boom".to_string() });
    let fault = map_sandbox_error("box", &other);
    assert_eq!(fault.kind, FaultKind::InternalError);
    assert_eq!(fault.message, "Compute error: Docker exec failed: boom");
}

#[test]
fn tool_error_messages() {
    let f = map_tool_error(Tool::Ls, "s", &ToolError::NotFound { path: "/src/x".to_string() });
    assert_eq!((f.kind, f.message.as_str()), (FaultKind::InvalidParams, "path not found: /src/x"));
    let f = map_tool_error(Tool::Read, "s", &ToolError::NotFound { path: "/src/x".to_string() });
    assert_eq!(f.message, "file not found: /src/x");
    let f = map_tool_error(Tool::Read, "s", &ToolError::Failed { path: "/src/x".to_string(), message: "m".to_string() });
    assert_eq!((f.kind, f.message.as_str()), (FaultKind::InternalError, "failed to read /src/x: m"));
    let f = map_tool_error(Tool::Patch, "s", &ToolError::InvalidPatch { message: "m".to_string() });
    assert_eq!((f.kind, f.message.as_str()), (FaultKind::InvalidParams, "invalid patch: m"));
}

#[test]
fn glob_entries_with_base() {
    let out = "/src/dir/subdir\n/src/dir/subdir/child.txt\n/src/dir/root.txt\n";
    let found = glob_select("**/*.txt", "/src/dir", out).unwrap();
    assert_eq!(found, vec!["root.txt", "subdir/child.txt"]);
}

#[test]
fn glob_in_sandbox_no_matches() {
    assert!(glob_select("*.md", "/src", "/src/root.txt\n").unwrap().is_empty());
}

#[test]
fn glob_entries_invalid_pattern() {
    let err = glob_select("a**b", "/src", "/src/x\n").unwrap_err();
    match err {
        ToolError::InvalidPattern { pattern, .. } => assert_eq!(pattern, "a**b"),
        other => panic!("unexpected error: {other:?}"),
    }
}

#[test]
fn glob_star_stays_in_segment() {
    let out = "/src/a.txt\n/src/sub/b.txt\n";
    assert_eq!(glob_select("*.txt", "/src", out).unwrap(), vec!["a.txt"]);
    assert_eq!(glob_select("/src/sub/*.txt", "/src", out).unwrap(), vec!["/src/sub/b.txt"]);
}

#[test]
fn patch_in_sandbox_success() {
    let diff = "--- a/file.txt\n+++ b/file.txt\n@@ -1 +1 @@\n-original\n+patched\n";
    assert_eq!(patch_content("file.txt", "original\n", diff).unwrap(), "patched\n");
}

#[test]
fn patch_in_sandbox_invalid_diff() {
    let diff = "--- a/file.txt\n+++ b/file.txt\n@@ -1 +1 @@\n-nonexistent line\n+replacement\n";
    match patch_content("file.txt", "line1\nline2\n", diff).unwrap_err() {
        ToolError::ApplyFailed { path, .. } => assert_eq!(path, "file.txt"),
        other => panic!("unexpected error: {other:?}"),
    }
}

#[test]
fn patch_rejects_unparsable_diff() {
    match patch_content("file.txt", "a\n", "@@ garbage").unwrap_err() {
        ToolError::InvalidPatch { .. } => {}
        other => panic!("unexpected error: {other:?}"),
    }
}

#[test]
fn patch_rejects_hunk_numbers_that_overflow() {
    let diff = "--- a/f\n+++ b/f\n@@ -18446744073709551615,1 +1,1 @@\n a\n@@ -5,1 +5,1 @@\n b\n";
    match patch_content("f", "a\n", diff).unwrap_err() {
        ToolError::InvalidPatch { message } => assert_eq!(message, "hunk header number too large"),
        other => panic!("unexpected error: {other:?}"),
    }
}

#[test]
fn patch_missing_container_is_sandbox_not_found() {
    let gone = || ToolError::Sandbox(SandboxError::Compute(ComputeError::ContainerExec {
        status_code: Some(404),
        detail: "no such container".to_string(),
    }));
    for e in [
        ToolError::PatchRead { path: "f".to_string(), cause: Box::new(gone()) },
        ToolError::PatchWrite { path: "f".to_string(), cause: Box::new(gone()) },
    ] {
        let fault = map_tool_error(Tool::Patch, "box", &e);
        assert_eq!(fault.kind, FaultKind::InvalidParams);
        assert_eq!(fault.message, "Sandbox 'box' not found.");
    }
    let other = ToolError::PatchRead {
        path: "f".to_string(),
        cause: Box::new(ToolError::NotFound { path: "/src/f".to_string() }),
    };
    let fault = map_tool_error(Tool::Patch, "box", &other);
    assert_eq!(fault.kind, FaultKind::InternalError);
    assert_eq!(fault.message, "failed to read file f for patching: file not found: /src/f");
}
