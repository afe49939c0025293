use dev_space_cleaner::items::{push_item, push_node_modules_item, sort_items, total_bytes};
use dev_space_cleaner::roots::{push_cache_item, CacheBase, CacheDir};
use dev_space_cleaner::model::{CleanupItem, SortBy};

fn item(path: &str, size: u64, last_used: u64) -> CleanupItem {
    CleanupItem {
        id: format!("node_modules:{path}"),
        kind: "node_modules".to_string(),
        path: path.to_string(),
        size_bytes: size,
        last_used_unix: last_used,
        risk: "r".to_string(),
        source: "filesystem".to_string(),
    }
}

fn paths(items: &[CleanupItem]) -> Vec<&str> {
    items.iter().map(|i| i.path.as_str()).collect()
}

#[test]
fn push_item_skips_empty_candidates() {
    let mut items = Vec::new();
    push_item(&mut items, "npm_cache", "/home/u/.npm".to_string(), 0, 5, "risk", "package_manager");
    assert!(items.is_empty());
}

#[test]
fn push_item_builds_id_from_kind_and_path() {
    let mut items = Vec::new();
    push_item(
        &mut items,
        "docker_volumes",
        "docker://volumes".to_string(),
        42,
        0,
        "Volume cleanup may remove persisted data",
        "docker",
    );
    assert_eq!(items.len(), 1);
    let it = &items[0];
    assert_eq!(it.id, "docker_volumes:docker://volumes");
    assert_eq!(it.kind, "docker_volumes");
    assert_eq!(it.path, "docker://volumes");
    assert_eq!(it.size_bytes, 42);
    assert_eq!(it.last_used_unix, 0);
    assert_eq!(it.risk, "Volume cleanup may remove persisted data");
    assert_eq!(it.source, "docker");
}

#[test]
fn sort_by_size_is_largest_first_and_stable() {
    let mut items = vec![item("a", 10, 1), item("b", 30, 2), item("c", 10, 3), item("d", 30, 4)];
    sort_items(&mut items, SortBy::Size);
    assert_eq!(paths(&items), vec!["b", "d", "a", "c"]);
}

#[test]
fn sort_by_last_used_is_oldest_first_and_stable() {
    let mut items = vec![item("a", 1, 50), item("b", 2, 10), item("c", 3, 50), item("d", 4, 0)];
    sort_items(&mut items, SortBy::LastUsed);
    assert_eq!(paths(&items), vec!["d", "b", "a", "c"]);
}

#[test]
fn sort_agrees_with_std_stable_sort() {
    let sizes = [5u64, 3, 9, 3, 5, 1, 9, 0, 7, 3];
    let mut mine: Vec<CleanupItem> =
        sizes.iter().enumerate().map(|(i, s)| item(&i.to_string(), *s, (s * 7) % 4)).collect();
    let mut std_sorted = mine.clone();
    std_sorted.sort_by(|a, b| b.size_bytes.cmp(&a.size_bytes));
    sort_items(&mut mine, SortBy::Size);
    assert_eq!(paths(&mine), paths(&std_sorted));
    let mut std_by_age = mine.clone();
    std_by_age.sort_by(|a, b| a.last_used_unix.cmp(&b.last_used_unix));
    sort_items(&mut mine, SortBy::LastUsed);
    assert_eq!(paths(&mine), paths(&std_by_age));
}

#[test]
fn sorting_twice_changes_nothing() {
    let mut items = vec![item("a", 2, 9), item("b", 7, 1), item("c", 2, 4)];
    sort_items(&mut items, SortBy::Size);
    let once = paths(&items).into_iter().map(String::from).collect::<Vec<_>>();
    sort_items(&mut items, SortBy::Size);
    assert_eq!(paths(&items), once);
}

#[test]
fn sort_of_empty_list() {
    let mut items: Vec<CleanupItem> = Vec::new();
    sort_items(&mut items, SortBy::LastUsed);
    assert!(items.is_empty());
}

#[test]
fn total_bytes_adds_sizes() {
    let items = vec![item("a", 10, 0), item("b", 32, 0)];
    assert_eq!(total_bytes(&items), Some(42));
    assert_eq!(total_bytes(&Vec::new()), Some(0));
}

#[test]
fn total_bytes_overflow_is_none() {
    let items = vec![item("a", u64::MAX, 0), item("b", 1, 0)];
    assert_eq!(total_bytes(&items), None);
    let edge = vec![item("a", u64::MAX - 1, 0), item("b", 1, 0)];
    assert_eq!(total_bytes(&edge), Some(u64::MAX));
}

#[test]
fn node_modules_candidate() {
    let mut items = Vec::new();
    push_node_modules_item(&mut items, "/w/app/node_modules".to_string(), 0, 9);
    assert!(items.is_empty());
    push_node_modules_item(&mut items, "/w/app/node_modules".to_string(), 300, 9);
    let it = &items[0];
    assert_eq!(it.id, "node_modules:/w/app/node_modules");
    assert_eq!(it.kind, "node_modules");
    assert_eq!(it.size_bytes, 300);
    assert_eq!(it.last_used_unix, 9);
    assert_eq!(it.risk, "Deleting node_modules requires reinstalling dependencies");
    assert_eq!(it.source, "filesystem");
}

#[test]
fn cache_candidate() {
    let cache = CacheDir {
        kind: "yarn_cache".to_string(),
        base: CacheBase::Home(std::path::PathBuf::from("/home/u")),
        parts: vec![".yarn".to_string(), "cache".to_string()],
        risk: "Clearing cache may slow next package install".to_string(),
    };
    let mut items = Vec::new();
    push_cache_item(&mut items, &cache, "/home/u/.yarn/cache".to_string(), 0, 1);
    assert!(items.is_empty());
    push_cache_item(&mut items, &cache, "/home/u/.yarn/cache".to_string(), 77, 1);
    let it = &items[0];
    assert_eq!(it.id, "yarn_cache:/home/u/.yarn/cache");
    assert_eq!(it.kind, "yarn_cache");
    assert_eq!(it.risk, "Clearing cache may slow next package install");
    assert_eq!(it.source, "package_manager");
}

#[test]
fn pushed_items_stay_well_formed() {
    let mut items = Vec::new();
    let sizes = [5u64, 0, 7, 0, 0, 1];
    for (k, size) in sizes.iter().enumerate() {
        push_item(&mut items, "npm_cache", format!("/c/{k}"), *size, 0, "r", "package_manager");
        assert!(items.iter().all(|it| it.size_bytes > 0 && it.id == format!("{}:{}", it.kind, it.path)));
    }
    assert_eq!(items.len(), sizes.iter().filter(|s| **s > 0).count());
}

#[test]
fn two_sorts_hold_the_same_items() {
    let base = vec![item("/a", 5, 30), item("/b", 9, 10), item("/c", 5, 20), item("/a", 5, 30), item("/d", 1, 40)];
    let mut by_size = base.clone();
    sort_items(&mut by_size, SortBy::Size);
    let mut by_age = base.clone();
    sort_items(&mut by_age, SortBy::LastUsed);
    let key = |v: &[CleanupItem]| {
        let mut k: Vec<(String, u64, u64)> = v.iter().map(|i| (i.id.clone(), i.size_bytes, i.last_used_unix)).collect();
        k.sort();
        k
    };
    assert_eq!(key(&by_size), key(&base));
    assert_eq!(key(&by_age), key(&base));
}
