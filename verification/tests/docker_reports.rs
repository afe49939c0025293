use dev_space_cleaner::docker::{
    dangling_total, df_entry, docker_prune_args, push_docker_items, reclaim_table, ReclaimTable,
};
use dev_space_cleaner::model::{CleanupItem, DockerOptions};

#[test]
fn df_line_is_read_from_json() {
    let e = df_entry(r#"{"Type":"Local Volumes","TotalCount":"3","Reclaimable":"1.2GB (50%)"}"#).unwrap();
    assert_eq!(e.kind, "local volumes");
    assert_eq!(e.reclaimable, "1.2GB ");
}

#[test]
fn df_line_missing_members_read_as_empty() {
    let e = df_entry(r#"{"Size":"2GB"}"#).unwrap();
    assert_eq!(e.kind, "");
    assert_eq!(e.reclaimable, "");
    let e = df_entry(r#"{"Type":7,"Reclaimable":"0B"}"#).unwrap();
    assert_eq!(e.kind, "");
    assert_eq!(e.reclaimable, "0B");
}

#[test]
fn df_line_that_is_not_json() {
    assert!(df_entry("TYPE TOTAL ACTIVE SIZE").is_none());
    assert!(df_entry("").is_none());
}

#[test]
fn reclaim_table_records_and_replaces() {
    let mut t = ReclaimTable::new();
    assert_eq!(t.get("images"), 0);
    t.record("images".to_string(), 10);
    t.record("containers".to_string(), 5);
    t.record("images".to_string(), 7);
    t.record(String::new(), 99);
    assert_eq!(t.get("images"), 7);
    assert_eq!(t.get("containers"), 5);
    assert_eq!(t.get("build cache"), 0);
    assert_eq!(t.get(""), 0);
}

fn all_options() -> DockerOptions {
    DockerOptions {
        dangling_images: true,
        unused_images: true,
        stopped_containers: true,
        build_cache: true,
        volumes: true,
    }
}

#[test]
fn docker_candidates_follow_options_and_skip_empty_ones() {
    let mut t = ReclaimTable::new();
    t.record("images".to_string(), 100);
    t.record("build cache".to_string(), 300);
    t.record("local volumes".to_string(), 400);
    let mut items: Vec<CleanupItem> = Vec::new();
    push_docker_items(&mut items, &all_options(), 50, &t);
    let got: Vec<(&str, &str, u64)> =
        items.iter().map(|i| (i.kind.as_str(), i.path.as_str(), i.size_bytes)).collect();
    assert_eq!(
        got,
        vec![
            ("docker_dangling_images", "docker://dangling_images", 50),
            ("docker_unused_images", "docker://unused_images", 100),
            ("docker_build_cache", "docker://build_cache", 300),
            ("docker_volumes", "docker://volumes", 400),
        ]
    );
    assert!(items.iter().all(|i| i.source == "docker" && i.last_used_unix == 0));
    assert_eq!(items[0].id, "docker_dangling_images:docker://dangling_images");
    assert_eq!(items[0].risk, "Dangling image cleanup is usually safe");
    assert_eq!(items[3].risk, "Volume cleanup may remove persisted data");
}

#[test]
fn docker_candidates_off_by_default() {
    let mut t = ReclaimTable::new();
    t.record("containers".to_string(), 9);
    let mut items: Vec<CleanupItem> = Vec::new();
    let only_containers = DockerOptions {
        dangling_images: false,
        unused_images: false,
        stopped_containers: true,
        build_cache: false,
        volumes: false,
    };
    push_docker_items(&mut items, &only_containers, 50, &t);
    assert_eq!(items.len(), 1);
    assert_eq!(items[0].kind, "docker_stopped_containers");
    assert_eq!(items[0].risk, "Stopped containers may include useful debug state");
}

#[test]
fn prune_commands_per_kind() {
    assert_eq!(docker_prune_args("docker_dangling_images").unwrap(), vec!["image", "prune", "-f"]);
    assert_eq!(docker_prune_args("docker_unused_images").unwrap(), vec!["image", "prune", "-a", "-f"]);
    assert_eq!(docker_prune_args("docker_stopped_containers").unwrap(), vec!["container", "prune", "-f"]);
    assert_eq!(docker_prune_args("docker_build_cache").unwrap(), vec!["builder", "prune", "-f"]);
    assert_eq!(docker_prune_args("docker_volumes").unwrap(), vec!["volume", "prune", "-f"]);
}

#[test]
fn prune_command_for_unknown_kind_is_an_error() {
    assert_eq!(
        docker_prune_args("docker_networks").unwrap_err(),
        "Unsupported docker cleanup kind: docker_networks"
    );
}

fn scale(number: &str, multiplier: u64) -> Option<u64> {
    number.parse::<f64>().ok().map(|v| (v * multiplier as f64) as u64)
}

#[test]
fn dangling_sizes_are_summed_line_by_line() {
    assert_eq!(dangling_total("1.5GB\n512MB\r\n10B\n", &scale), Some(1_610_612_736 + 536_870_912 + 10));
    assert_eq!(dangling_total("", &scale), Some(0));
    assert_eq!(dangling_total("garbage\n\n", &scale), Some(0));
}

#[test]
fn dangling_total_that_does_not_fit() {
    let text = format!("{}\n1", u64::MAX);
    assert_eq!(dangling_total(&text, &scale), None);
    assert_eq!(dangling_total(&u64::MAX.to_string(), &scale), Some(u64::MAX));
}

#[test]
fn reclaim_table_from_a_report() {
    let report = [
        r#"{"Type":"Images","Reclaimable":"2GB (40%)"}"#,
        "not json",
        r#"{"Type":"Build Cache","Reclaimable":"512MB"}"#,
        r#"{"Reclaimable":"9GB"}"#,
        r#"{"Type":"images","Reclaimable":"1KB"}"#,
    ]
    .join("\n");
    let t = reclaim_table(&report, &scale);
    assert_eq!(t.get("images"), 1024);
    assert_eq!(t.get("build cache"), 536_870_912);
    assert_eq!(t.get(""), 0);
    assert_eq!(t.get("containers"), 0);
}
