use tiber::lock_file::{
    lock_contents_are_stale, lock_file_pid, lock_file_timestamp, lock_is_old, lock_metadata_text,
};
use tiber::refs::{parse_doc_ref, parse_safe_relative_path, RefError};
use tiber::retry::{coordination_branch_creation_race, retryable_failure_message, retryable_push_rejection};

fn v(xs: &[&str]) -> Vec<String> {
    xs.iter().map(|x| x.to_string()).collect()
}

#[test]
fn relative_references_are_plain_names() {
    assert_eq!(parse_safe_relative_path("docs/a.md"), Ok("docs/a.md".to_string()));
    assert_eq!(parse_safe_relative_path("a/./b"), Ok("a/./b".to_string()));
    assert_eq!(parse_safe_relative_path(".hidden"), Ok(".hidden".to_string()));
    for bad in ["/etc/passwd", "./a", ".", "a/../b", ".."] {
        assert_eq!(parse_safe_relative_path(bad), Err(RefError::Unsafe), "{bad}");
    }
}

#[test]
fn document_references_name_something_under_docs() {
    assert_eq!(parse_doc_ref("docs/guide.md"), Ok("docs/guide.md".to_string()));
    assert_eq!(parse_doc_ref("docs//x/y.md"), Ok("docs//x/y.md".to_string()));
    assert_eq!(parse_doc_ref("docs"), Err(RefError::NotADoc));
    assert_eq!(parse_doc_ref("docs/"), Err(RefError::NotADoc));
    assert_eq!(parse_doc_ref("docs/."), Err(RefError::NotADoc));
    assert_eq!(parse_doc_ref("docsx/a"), Err(RefError::NotADoc));
    assert_eq!(parse_doc_ref("src/a"), Err(RefError::NotADoc));
    assert_eq!(parse_doc_ref("docs/../a"), Err(RefError::Unsafe));
}

#[test]
fn lost_races_are_retried() {
    assert!(retryable_failure_message("event_version_conflict=stream"));
    assert!(retryable_failure_message("x event_store_authoritative_ref_retry=true y"));
    assert!(retryable_failure_message("ci_recovery_claim_already_active incident=1"));
    assert!(!retryable_failure_message("conflict event_version_conflict=stream"));
    let push = v(&["push", "origin", "tiber"]);
    assert!(retryable_push_rejection(&push, "! [rejected] (non-fast-forward)"));
    assert!(retryable_push_rejection(&push, "hint: fetch first"));
    assert!(retryable_push_rejection(&push, "incorrect old value provided"));
    assert!(retryable_push_rejection(&push, "stale info"));
    assert!(!retryable_push_rejection(&push, "permission denied"));
    assert!(!retryable_push_rejection(&v(&["fetch"]), "non-fast-forward"));
    assert!(coordination_branch_creation_race(&push, "cannot lock ref 'x': reference already exists"));
    assert!(!coordination_branch_creation_race(&push, "cannot lock ref 'x'"));
    assert!(!coordination_branch_creation_race(&v(&["fetch"]), "cannot lock ref: reference already exists"));
}

#[test]
fn lock_files_name_their_holder_and_time() {
    let text = lock_metadata_text(4242, 1_700_000_000);
    assert_eq!(text, "pid=4242\ntimestamp=1700000000\n");
    assert_eq!(lock_file_pid(&text), Some(4242));
    assert_eq!(lock_file_timestamp(&text), Some(1_700_000_000));
    assert_eq!(lock_file_pid("owner=x\npid=abc\npid=7\n"), None);
    assert_eq!(lock_file_pid("pid=+7\r\n"), Some(7));
    assert_eq!(lock_file_pid("pid=4294967296\n"), None);
    assert_eq!(lock_file_timestamp("nothing"), None);
}

#[test]
fn locks_go_stale_after_an_hour_or_when_the_holder_is_gone() {
    assert!(!lock_is_old(1000, 4600, 0));
    assert!(lock_is_old(1000, 4600, 1));
    assert!(lock_is_old(1000, 4601, 0));
    assert!(!lock_is_old(5000, 1000, 0));
    let text = "pid=1\ntimestamp=1000\n";
    assert!(lock_contents_are_stale(text, true, 1000, 0));
    assert!(!lock_contents_are_stale(text, false, 1000, 0));
    assert!(lock_contents_are_stale(text, false, 5000, 0));
    assert!(!lock_contents_are_stale("timestamp=1000\n", true, 1000, 0));
    assert!(!lock_contents_are_stale("", false, 99999, 0));
}
