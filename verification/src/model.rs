//! The data a scan is asked for and the data it reports.
use vstd::prelude::*;

verus! {

/// How scan results are ordered.
#[derive(Clone, Copy, Debug, PartialEq, Eq, Structural)]
pub enum SortBy {
    /// Largest first.
    Size,
    /// Least recently used first.
    LastUsed,
}

/// Which `node_modules` directories a scan reports.
#[derive(Clone, Copy, Debug, PartialEq, Eq, Structural)]
pub enum NodeModulesMode {
    /// Only those not used within the stale window.
    Stale,
    /// Every one found.
    All,
}

/// The family of operating system whose conventions (roots, system
/// directories, cache locations) a scan follows.
#[derive(Clone, Copy, Debug, PartialEq, Eq, Structural)]
pub enum TargetOs {
    Windows,
    /// macOS, Linux and the other Unix-like systems.
    Unix,
}

/// Which Docker resources a scan reports.
#[derive(Clone, Copy, Debug, PartialEq, Eq, Structural)]
pub struct DockerOptions {
    pub dangling_images: bool,
    pub unused_images: bool,
    pub stopped_containers: bool,
    pub build_cache: bool,
    pub volumes: bool,
}

/// What the user asks a scan for.
#[derive(Debug)]
pub struct ScanRequest {
    pub scan_paths: Vec<String>,
    pub ignore_patterns: Vec<String>,
    pub sort_by: SortBy,
    pub node_modules_mode: NodeModulesMode,
    pub stale_days: u64,
    pub docker_options: DockerOptions,
}

/// One thing that can be cleaned up.
#[derive(Clone, Debug)]
pub struct CleanupItem {
    pub id: String,
    pub kind: String,
    pub path: String,
    pub size_bytes: u64,
    pub last_used_unix: u64,
    pub risk: String,
    pub source: String,
}

/// What a scan reports.
#[derive(Debug)]
pub struct ScanResponse {
    pub total_bytes: u64,
    pub item_count: usize,
    pub items: Vec<CleanupItem>,
    pub cancelled: bool,
}

/// What a cleanup run reports.
#[derive(Clone, Copy, Debug, PartialEq, Eq, Structural)]
pub struct CleanupResponse {
    pub freed_bytes: u64,
    pub success_count: usize,
    pub failed_count: usize,
}

/// The ordering used when a request names none: largest first.
pub fn default_sort() -> (r: SortBy)
    ensures
        r == SortBy::Size,
{
    SortBy::Size
}

/// The `node_modules` policy used when a request names none: stale ones only.
pub fn default_node_mode() -> (r: NodeModulesMode)
    ensures
        r == NodeModulesMode::Stale,
{
    NodeModulesMode::Stale
}

/// The number of days after which an unused `node_modules` directory is stale,
/// when a request names none.
pub fn default_stale_days() -> (days: u64)
    ensures
        days == 30,
{
    30
}

/// The Docker options used when a request names none: dangling images only.
pub fn default_docker_options() -> (r: DockerOptions)
    ensures
        r.dangling_images,
        !r.unused_images && !r.stopped_containers && !r.build_cache && !r.volumes,
{
    DockerOptions {
        dangling_images: true,
        unused_images: false,
        stopped_containers: false,
        build_cache: false,
        volumes: false,
    }
}

} // verus!
