use dev_space_cleaner::model::TargetOs;
use dev_space_cleaner::scan::cache_included;
use dev_space_cleaner::patterns::{
    default_ignore_patterns, matches_any_pattern, normalize_patterns, should_ignore,
};
use dev_space_cleaner::roots::{
    cache_dirs, default_scan_roots, home_cache_dirs, scan_root_candidates, windows_cache_dirs,
    CacheBase, CacheDir,
};

fn strings(v: &[&str]) -> Vec<String> {
    v.iter().map(|s| s.to_string()).collect()
}

#[test]
fn patterns_are_trimmed_lowercased_and_blank_ones_dropped() {
    let raw = strings(&[" Foo ", "", "   ", "BAR/Baz", "\tq\n"]);
    assert_eq!(normalize_patterns(&raw), strings(&["foo", "bar/baz", "q"]));
    assert!(normalize_patterns(&[]).is_empty());
}

#[test]
fn ignore_matching_is_case_insensitive_on_the_path() {
    let pats = strings(&["/library/", "/tmp/"]);
    assert!(should_ignore("/Users/me/Library/Caches", &pats));
    assert!(should_ignore("/TMP/x", &pats));
    assert!(!should_ignore("/home/me/project", &pats));
    assert!(!should_ignore("/anything", &[]));
}

#[test]
fn matching_uses_the_text_as_given() {
    let pats = strings(&["abc"]);
    assert!(matches_any_pattern("xxabcxx", &pats));
    assert!(!matches_any_pattern("xxABCxx", &pats));
}

#[test]
fn system_locations_per_os() {
    assert_eq!(
        default_ignore_patterns(TargetOs::Unix),
        strings(&["/system/", "/private/", "/applications/", "/volumes/", "/dev/", "/proc/", "/sys/", "/tmp/"])
    );
    assert_eq!(
        default_ignore_patterns(TargetOs::Windows),
        strings(&[
            "\\windows\\",
            "\\program files\\",
            "\\program files (x86)\\",
            "\\$recycle.bin\\",
            "\\system volume information\\",
        ])
    );
}

#[test]
fn default_roots_per_os() {
    assert_eq!(default_scan_roots(TargetOs::Unix), strings(&["/"]));
    let w = default_scan_roots(TargetOs::Windows);
    assert_eq!(w.len(), 26);
    assert_eq!(w[0], "A:\\\\");
    assert_eq!(w[2], format!("{}:\\\\", 'C'));
    assert_eq!(w[25], "Z:\\\\");
}

#[test]
fn requested_roots_replace_defaults() {
    assert_eq!(scan_root_candidates(&strings(&["/a", "/b"]), TargetOs::Unix), strings(&["/a", "/b"]));
    assert_eq!(scan_root_candidates(&Vec::new(), TargetOs::Unix), strings(&["/"]));
}

fn base_text(b: &CacheBase) -> String {
    match b {
        CacheBase::Dir(d) => format!("dir {d}"),
        CacheBase::Home(h) => format!("home {}", h.display()),
    }
}

fn layout(dirs: &[CacheDir]) -> Vec<(String, String, Vec<String>)> {
    dirs.iter().map(|d| (d.kind.clone(), base_text(&d.base), d.parts.clone())).collect()
}

#[test]
fn unix_caches_under_home() {
    let dirs = home_cache_dirs(Some(std::path::PathBuf::from("/home/u")));
    let h = "home /home/u".to_string();
    assert_eq!(
        layout(&dirs),
        vec![
            ("npm_cache".to_string(), h.clone(), strings(&[".npm"])),
            ("pnpm_cache".to_string(), h.clone(), strings(&[".pnpm-store"])),
            ("pnpm_cache".to_string(), h.clone(), strings(&["Library", "Caches", "pnpm"])),
            ("yarn_cache".to_string(), h.clone(), strings(&["Library", "Caches", "Yarn"])),
            ("yarn_cache".to_string(), h.clone(), strings(&[".yarn", "cache"])),
        ]
    );
    assert!(dirs.iter().all(|d| d.risk == "Clearing cache may slow next package install"));
    assert!(home_cache_dirs(None).is_empty());
}

#[test]
fn windows_caches_under_app_data() {
    let dirs = windows_cache_dirs(Some("L".to_string()), Some("R".to_string()));
    assert_eq!(
        layout(&dirs),
        vec![
            ("npm_cache".to_string(), "dir L".to_string(), strings(&["npm-cache"])),
            ("pnpm_cache".to_string(), "dir L".to_string(), strings(&["pnpm", "store"])),
            ("yarn_cache".to_string(), "dir L".to_string(), strings(&["Yarn", "Cache"])),
            ("npm_cache".to_string(), "dir R".to_string(), strings(&["npm-cache"])),
        ]
    );
    assert_eq!(windows_cache_dirs(None, Some("R".to_string())).len(), 1);
    assert!(windows_cache_dirs(None, None).is_empty());
    assert_eq!(cache_dirs(TargetOs::Windows, None, Some("R".to_string())).len(), 1);
}

#[test]
fn unix_caches_use_the_real_home_directory() {
    let dirs = cache_dirs(TargetOs::Unix, Some("ignored".to_string()), None);
    match dirs::home_dir() {
        Some(home) => {
            assert_eq!(dirs.len(), 5);
            assert!(matches!(&dirs[0].base, CacheBase::Home(h) if *h == home));
            assert_eq!(dirs[0].kind, "npm_cache");
        }
        None => assert!(dirs.is_empty()),
    }
}

#[test]
fn normalizing_twice_changes_nothing() {
    let raw = strings(&["  Node_Modules ", "", "\tTMP/", "a b", " \\Windows\\ "]);
    let once = normalize_patterns(&raw);
    assert_eq!(normalize_patterns(&once), once);
}

#[test]
fn default_patterns_are_already_normalized() {
    for os in [TargetOs::Windows, TargetOs::Unix] {
        let d = default_ignore_patterns(os);
        assert_eq!(normalize_patterns(&d), d);
    }
}

#[test]
fn caches_are_included_only_when_present_and_not_ignored() {
    let pats = strings(&["/home/u/.npm"]);
    assert!(cache_included(true, "/home/u/.yarn/cache", &pats));
    assert!(!cache_included(false, "/home/u/.yarn/cache", &pats));
    assert!(!cache_included(true, "/HOME/u/.NPM", &pats));
}
