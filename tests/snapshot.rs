use litterbox::snapshot::{
    archive_entry_mode, choose_parent, ref_update_step, restore_action, sandbox_slugs,
    skip_staging_entry, snapshot_needed, snapshot_ref_name, tree_entry_mode, CommitRef,
    RefOutcome, RefRestore, RefStep,
};

fn commit(id: &str, tree: &str) -> CommitRef {
    CommitRef { id: id.to_string(), tree: tree.to_string() }
}

#[test]
fn snapshot_ref_names() {
    assert_eq!(snapshot_ref_name(None), "refs/heads/litterbox-snapshots");
    assert_eq!(snapshot_ref_name(Some("box")), "refs/heads/litterbox-snapshots-box");
}

#[test]
fn snapshot_skipped_when_tree_unchanged() {
    let first = choose_parent(None, Some(commit("h", "t0")));
    assert_eq!(first, Some(commit("h", "t0")));
    assert!(snapshot_needed(&first, "t1"));
    let second = choose_parent(Some(commit("c1", "t1")), Some(commit("h", "t0")));
    assert_eq!(second, Some(commit("c1", "t1")));
    assert!(!snapshot_needed(&second, "t1"));
    assert!(snapshot_needed(&None, "t1"));
}

#[test]
fn tree_modes_keep_executable_bit() {
    assert_eq!(tree_entry_mode(false, 0o755), 0o100755);
    assert_eq!(tree_entry_mode(false, 0o100), 0o100755);
    assert_eq!(tree_entry_mode(false, 0o644), 0o100644);
    assert_eq!(tree_entry_mode(true, 0o755), 0o040000);
    assert_eq!(archive_entry_mode(0), 0o644);
    assert_eq!(archive_entry_mode(0o100755), 0o100755);
}

#[test]
fn staging_skips_git_entry() {
    assert!(skip_staging_entry(".git"));
    assert!(!skip_staging_entry(".gitignore"));
}

#[test]
fn ref_update_retries_on_lock() {
    assert_eq!(ref_update_step(0, RefOutcome::Updated), RefStep::Done);
    assert_eq!(ref_update_step(0, RefOutcome::Locked), RefStep::RetryAfter { delay_ms: 10 });
    assert_eq!(ref_update_step(4, RefOutcome::Locked), RefStep::RetryAfter { delay_ms: 50 });
    assert_eq!(ref_update_step(5, RefOutcome::Locked), RefStep::Restore);
    assert_eq!(ref_update_step(0, RefOutcome::Failed), RefStep::Restore);
}

#[test]
fn restore_puts_backup_back() {
    assert_eq!(restore_action(&Some("abc".to_string())), RefRestore::SetTo("abc".to_string()));
    assert_eq!(restore_action(&None), RefRestore::Delete);
}

#[test]
fn list_sandboxes_sorted_unique() {
    let branches = vec![
        "main".to_string(),
        "litterbox/b".to_string(),
        "litterbox/a".to_string(),
        "litterbox/b".to_string(),
        "litterboxx".to_string(),
    ];
    assert_eq!(sandbox_slugs(&branches), vec!["a", "b"]);
}
