use litterbox::domain::{slugify, slugify_name, validate_slug, ComputeError, SandboxError, ScmError};

#[test]
fn slugify_replaces_and_collapses() {
    let slug = slugify("My Feature Name!@#");
    assert_eq!(slug, "my-feature-name");
}

#[test]
fn slugify_trims_dashes() {
    let slug = slugify("---Hello---World---");
    assert_eq!(slug, "hello-world");
}

#[test]
fn slugify_name_rejects_empty_slug() {
    let err = slugify_name("----").expect_err("expected invalid name");
    assert_eq!(
        err.message(),
        "Invalid sandbox name: '----'. Slugified names must be 1-63 characters and contain only [a-z0-9-]."
    );
}

#[test]
fn setup_command_failed_formats_error() {
    let err = SandboxError::SetupCommandFailed {
        exit_code: 1,
        stderr: "boom".to_string(),
    };
    let message = err.message();
    assert!(message.contains("exit code 1"));
    assert!(message.contains("boom"));
}

#[test]
fn slugify_example_from_create() {
    assert_eq!(slugify("My Feature!"), "my-feature");
}

#[test]
fn slugify_keeps_digits_and_lowercases() {
    assert_eq!(slugify("ABC 123_x"), "abc-123-x");
    assert_eq!(slugify(""), "");
    assert_eq!(slugify("héllo"), "h-llo");
}

#[test]
fn slugify_output_has_slug_shape() {
    for input in ["  a  b  ", "--x--", "Über Straße", "a__b--c", "!!!"] {
        let s = slugify(input);
        assert!(s.chars().all(|c| c.is_ascii_lowercase() || c.is_ascii_digit() || c == '-'));
        assert!(!s.starts_with('-') && !s.ends_with('-'));
        assert!(!s.contains("--"));
    }
}

#[test]
fn slugify_name_rejects_long_slug() {
    let long = "a".repeat(64);
    assert!(slugify_name(&long).is_err());
    let ok = "a".repeat(63);
    assert_eq!(slugify_name(&ok).unwrap(), ok);
}

#[test]
fn validate_slug_checks_characters() {
    assert!(validate_slug("x", "abc-1").is_ok());
    assert!(validate_slug("x", "Abc").is_err());
    assert!(validate_slug("x", "").is_err());
}

#[test]
fn error_messages_follow_their_kind() {
    let e = SandboxError::SandboxExists { name: "a".to_string() };
    assert_eq!(e.message(), "Sandbox 'a' already exists.");
    let e = SandboxError::SandboxNotFound { name: "a".to_string() };
    assert_eq!(e.message(), "Sandbox 'a' not found.");
    let e = SandboxError::Scm(ScmError::ApplyPatch { message: "bad".to_string() });
    assert_eq!(e.message(), "SCM error: failed to apply patch: bad");
    let e = SandboxError::Compute(ComputeError::ContainerExec { status_code: Some(404), detail: "gone".to_string() });
    assert_eq!(e.message(), "Compute error: Docker exec failed: gone");
    let e = SandboxError::SetupCommandFailed { exit_code: -3, stderr: "x".to_string() };
    assert_eq!(e.message(), "Setup command failed with exit code -3: x");
    let e = SandboxError::Config("c".to_string());
    assert_eq!(e.message(), "Configuration error: c");
    let e = SandboxError::Io { detail: "d".to_string() };
    assert_eq!(e.message(), "I/O error: d");
}
