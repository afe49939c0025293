use dev_space_cleaner::items::push_item;
use dev_space_cleaner::model::{
    default_docker_options, default_node_mode, default_sort, default_stale_days, CleanupItem,
    NodeModulesMode, ScanRequest, SortBy, TargetOs,
};
use dev_space_cleaner::scan::{
    finish_scan, include_node_modules, last_used_from, next_phase, observe_entry, plan_scan,
    EntryAction, ScanPhase, ScanPlan,
};

fn request(ignore: &[&str], mode: NodeModulesMode, stale_days: u64) -> ScanRequest {
    ScanRequest {
        scan_paths: vec![],
        ignore_patterns: ignore.iter().map(|s| s.to_string()).collect(),
        sort_by: SortBy::Size,
        node_modules_mode: mode,
        stale_days,
        docker_options: default_docker_options(),
    }
}

#[test]
fn defaults_of_a_request() {
    assert_eq!(default_sort(), SortBy::Size);
    assert_eq!(default_node_mode(), NodeModulesMode::Stale);
    assert_eq!(default_stale_days(), 30);
    let d = default_docker_options();
    assert!(d.dangling_images);
    assert!(!d.unused_images && !d.stopped_containers);
    assert!(!d.build_cache && !d.volumes);
}

#[test]
fn plan_puts_user_patterns_before_system_ones() {
    let plan = plan_scan(&request(&["  Work/Old ", "", "X"], NodeModulesMode::Stale, 30), 0, TargetOs::Unix);
    assert_eq!(
        plan.patterns,
        vec![
            "work/old", "x", "/system/", "/private/", "/applications/", "/volumes/", "/dev/",
            "/proc/", "/sys/", "/tmp/",
        ]
    );
}

#[test]
fn plan_stale_cutoff() {
    let now = 1_700_000_000;
    let plan = plan_scan(&request(&[], NodeModulesMode::Stale, 30), now, TargetOs::Unix);
    assert_eq!(plan.stale_before, now - 30 * 86_400);
    let plan = plan_scan(&request(&[], NodeModulesMode::Stale, 0), now, TargetOs::Unix);
    assert_eq!(plan.stale_before, now);
    let plan = plan_scan(&request(&[], NodeModulesMode::Stale, 100_000), now, TargetOs::Unix);
    assert_eq!(plan.stale_before, 0);
    let plan = plan_scan(&request(&[], NodeModulesMode::All, u64::MAX), now, TargetOs::Unix);
    assert_eq!(plan.stale_before, 0);
    assert_eq!(plan.node_modules_mode, NodeModulesMode::All);
}

fn plan(patterns: &[&str], mode: NodeModulesMode, stale_before: u64) -> ScanPlan {
    ScanPlan {
        patterns: patterns.iter().map(|s| s.to_string()).collect(),
        stale_before,
        node_modules_mode: mode,
    }
}

#[test]
fn ignored_directories_are_skipped() {
    let p = plan(&["/proc/"], NodeModulesMode::Stale, 0);
    let mut dirs = 0;
    let d = observe_entry(&mut dirs, &p, true, "/PROC/self/", Some("self"));
    assert_eq!(d.action, EntryAction::SkipDirectory);
    assert_eq!(dirs, 1);
    // Files are never skipped, whatever their path.
    let f = observe_entry(&mut dirs, &p, false, "/proc/self/x", Some("x"));
    assert_eq!(f.action, EntryAction::Descend);
    assert_eq!(dirs, 1);
}

#[test]
fn node_modules_directories_in_any_ascii_case() {
    let p = plan(&[], NodeModulesMode::Stale, 0);
    let mut dirs = 0;
    for name in ["node_modules", "Node_Modules", "NODE_MODULES"] {
        let d = observe_entry(&mut dirs, &p, true, "/p/x", Some(name));
        assert_eq!(d.action, EntryAction::InspectNodeModules);
    }
    assert_eq!(observe_entry(&mut dirs, &p, false, "/p/node_modules", Some("node_modules")).action, EntryAction::Descend);
    assert_eq!(observe_entry(&mut dirs, &p, true, "/p/x", None).action, EntryAction::Descend);
    assert_eq!(observe_entry(&mut dirs, &p, true, "/p/x", Some("node_modules2")).action, EntryAction::Descend);
}

#[test]
fn ignore_rules_win_over_node_modules() {
    let p = plan(&["/tmp/"], NodeModulesMode::All, 0);
    let mut dirs = 0;
    let d = observe_entry(&mut dirs, &p, true, "/tmp/app/node_modules", Some("node_modules"));
    assert_eq!(d.action, EntryAction::SkipDirectory);
}

#[test]
fn progress_every_four_hundred_directories() {
    let p = plan(&[], NodeModulesMode::Stale, 0);
    let mut dirs = 398;
    assert!(!observe_entry(&mut dirs, &p, true, "/a", Some("a")).report_progress);
    assert!(observe_entry(&mut dirs, &p, true, "/b", Some("b")).report_progress);
    assert_eq!(dirs, 400);
    assert!(!observe_entry(&mut dirs, &p, false, "/c", Some("c")).report_progress);
    let mut full = u64::MAX;
    observe_entry(&mut full, &p, true, "/d", Some("d"));
    assert_eq!(full, u64::MAX);
}

#[test]
fn stale_node_modules_selection() {
    let stale = plan(&[], NodeModulesMode::Stale, 1000);
    assert!(include_node_modules(&stale, 0));
    assert!(include_node_modules(&stale, 999));
    assert!(include_node_modules(&stale, 1000));
    assert!(!include_node_modules(&stale, 1001));
    let all = plan(&[], NodeModulesMode::All, 1000);
    assert!(include_node_modules(&all, 5000));
}

#[test]
fn last_used_prefers_access_then_modification_then_creation() {
    assert_eq!(last_used_from(Some(Some(10)), Some(Some(20)), Some(Some(30))), 10);
    assert_eq!(last_used_from(None, Some(Some(20)), Some(Some(30))), 20);
    assert_eq!(last_used_from(None, None, Some(Some(30))), 30);
    assert_eq!(last_used_from(None, None, None), 0);
    // A time before the epoch counts as unknown; later timestamps are not consulted.
    assert_eq!(last_used_from(Some(None), Some(Some(20)), None), 0);
}

fn candidate(path: &str, size: u64, last: u64) -> Vec<CleanupItem> {
    let mut v = Vec::new();
    push_item(&mut v, "node_modules", path.to_string(), size, last, "risk", "filesystem");
    v
}

#[test]
fn finished_scan_is_sorted_and_totalled() {
    let mut items = candidate("/a", 5, 3);
    items.extend(candidate("/b", 50, 1));
    items.extend(candidate("/c", 0, 9));
    items.extend(candidate("/d", 20, 2));
    let resp = finish_scan(items, SortBy::Size, false).unwrap();
    let order: Vec<&str> = resp.items.iter().map(|i| i.path.as_str()).collect();
    assert_eq!(order, vec!["/b", "/d", "/a"]);
    assert_eq!(resp.total_bytes, 75);
    assert_eq!(resp.item_count, 3);
    assert!(!resp.cancelled);
    assert!(resp.items.iter().all(|i| i.size_bytes > 0));
}

#[test]
fn finished_scan_keeps_cancellation_and_age_order() {
    let mut items = candidate("/a", 5, 30);
    items.extend(candidate("/b", 6, 10));
    let resp = finish_scan(items, SortBy::LastUsed, true).unwrap();
    assert_eq!(resp.items[0].path, "/b");
    assert!(resp.cancelled);
}

#[test]
fn finished_scan_with_unrepresentable_total() {
    let mut items = candidate("/a", u64::MAX, 0);
    items.extend(candidate("/b", 1, 0));
    assert!(finish_scan(items, SortBy::Size, false).is_none());
}

#[test]
fn system_locations_are_skipped_whatever_the_user_patterns() {
    let plan = plan_scan(&request(&["Foo", "  "], NodeModulesMode::All, 30), 0, TargetOs::Unix);
    let mut dirs = 0;
    let d = observe_entry(&mut dirs, &plan, true, "/Volumes/Disk/app/node_modules", Some("node_modules"));
    assert_eq!(d.action, EntryAction::SkipDirectory);
    let win = plan_scan(&request(&[], NodeModulesMode::All, 30), 0, TargetOs::Windows);
    let d = observe_entry(&mut dirs, &win, true, "C:\\Program Files\\x", Some("x"));
    assert_eq!(d.action, EntryAction::SkipDirectory);
    let d = observe_entry(&mut dirs, &win, true, "C:\\Users\\me\\proj", Some("proj"));
    assert_eq!(d.action, EntryAction::Descend);
}

#[test]
fn scan_phases_in_order() {
    assert_eq!(next_phase(ScanPhase::Walk, false, true), ScanPhase::Caches);
    assert_eq!(next_phase(ScanPhase::Caches, false, true), ScanPhase::DockerCheck);
    assert_eq!(next_phase(ScanPhase::DockerCheck, false, true), ScanPhase::Docker);
    assert_eq!(next_phase(ScanPhase::DockerCheck, false, false), ScanPhase::Report);
    assert_eq!(next_phase(ScanPhase::Docker, false, true), ScanPhase::Report);
    assert_eq!(next_phase(ScanPhase::Report, false, true), ScanPhase::Report);
}

#[test]
fn a_stop_leads_straight_to_the_report() {
    assert_eq!(next_phase(ScanPhase::Walk, true, true), ScanPhase::Report);
    assert_eq!(next_phase(ScanPhase::Caches, true, true), ScanPhase::Report);
    for cancels in [[false; 4], [true, false, false, false], [false, true, false, false]] {
        for docker in [false, true] {
            let mut phase = ScanPhase::Walk;
            for c in cancels {
                phase = next_phase(phase, c, docker);
            }
            assert_eq!(phase, ScanPhase::Report);
        }
    }
}
