use dev_space_cleaner::cleanup::{cleanup_action, summarize_cleanup, CleanupAction, CleanupOutcome};
use dev_space_cleaner::model::CleanupItem;
use dev_space_cleaner::tally::DirSizeTally;
use dev_space_cleaner::clock::now_unix;

fn item(kind: &str, path: &str) -> CleanupItem {
    CleanupItem {
        id: format!("{kind}:{path}"),
        kind: kind.to_string(),
        path: path.to_string(),
        size_bytes: 1,
        last_used_unix: 0,
        risk: String::new(),
        source: String::new(),
    }
}

#[test]
fn docker_items_are_pruned() {
    match cleanup_action(&item("docker_build_cache", "docker://build_cache")) {
        CleanupAction::Prune(args) => assert_eq!(args, vec!["builder", "prune", "-f"]),
        other => panic!("unexpected {other:?}"),
    }
}

#[test]
fn unknown_docker_kinds_fail() {
    match cleanup_action(&item("docker_images", "docker://images")) {
        CleanupAction::Fail(msg) => assert_eq!(msg, "Unsupported docker cleanup kind: docker_images"),
        other => panic!("unexpected {other:?}"),
    }
}

#[test]
fn paths_are_removed_unless_empty() {
    assert!(matches!(
        cleanup_action(&item("node_modules", "/p/node_modules")),
        CleanupAction::RemoveDirectory
    ));
    match cleanup_action(&item("npm_cache", "")) {
        CleanupAction::Fail(msg) => assert_eq!(msg, "Path does not exist"),
        other => panic!("unexpected {other:?}"),
    }
}

#[test]
fn cleanup_summary_counts_and_frees() {
    let outcomes = [
        CleanupOutcome { size_bytes: 10, succeeded: true },
        CleanupOutcome { size_bytes: 20, succeeded: false },
        CleanupOutcome { size_bytes: 5, succeeded: true },
    ];
    let r = summarize_cleanup(&outcomes);
    assert_eq!(r.freed_bytes, 15);
    assert_eq!(r.success_count, 2);
    assert_eq!(r.failed_count, 1);
    let none = summarize_cleanup(&[]);
    assert_eq!((none.freed_bytes, none.success_count, none.failed_count), (0, 0, 0));
}

#[test]
fn freed_bytes_saturate() {
    let outcomes = [
        CleanupOutcome { size_bytes: u64::MAX - 1, succeeded: true },
        CleanupOutcome { size_bytes: 7, succeeded: true },
        CleanupOutcome { size_bytes: 7, succeeded: false },
    ];
    let r = summarize_cleanup(&outcomes);
    assert_eq!(r.freed_bytes, u64::MAX);
    assert_eq!(r.success_count + r.failed_count, 3);
}

#[test]
fn directory_size_tally() {
    let mut t = DirSizeTally::new();
    assert_eq!(t.total(), 0);
    assert!(!t.record(Some(100)));
    assert!(!t.record(None));
    assert!(!t.record(Some(23)));
    assert_eq!(t.total(), 123);
}

#[test]
fn directory_size_tally_asks_for_cancel_checks_every_512_entries() {
    let mut t = DirSizeTally::new();
    for i in 1..=1024u32 {
        let due = t.record(None);
        assert_eq!(due, i % 512 == 0, "entry {i}");
    }
    assert_eq!(t.total(), 0);
}

#[test]
fn directory_size_tally_saturates() {
    let mut t = DirSizeTally::new();
    t.record(Some(u64::MAX - 5));
    t.record(Some(10));
    t.record(Some(10));
    assert_eq!(t.total(), u64::MAX);
}

#[test]
fn clock_reads_a_recent_time() {
    assert!(now_unix() > 1_600_000_000);
}
