//! The decisions of a scan: what to skip, which `node_modules` count, and
//! how the candidates found are reported.
use vstd::prelude::*;
use crate::items::{sort_items, stably_sorted, total_bytes, total_size};
use crate::model::{CleanupItem, NodeModulesMode, ScanRequest, ScanResponse, SortBy, TargetOs};
use crate::patterns::{
    default_ignore_patterns, default_ignores, holds_any, normalize_patterns, normalized_all,
    should_ignore, texts,
};
use crate::text::{chars_of, eq_ignore_ascii_case, eq_ignore_case_ascii, lowercase};

verus! {

/// Seconds in a day.
pub open spec fn day_secs() -> u64 {
    86400
}

/// The moment before which a `node_modules` directory counts as stale:
/// `stale_days` days before `now` (both saturating).
pub open spec fn stale_cutoff(now: u64, stale_days: u64) -> u64 {
    let window: int = if stale_days * day_secs() > u64::MAX {
        u64::MAX as int
    } else {
        stale_days * day_secs()
    };
    if now - window < 0 {
        0
    } else {
        (now - window) as u64
    }
}

/// What a scan needs to know besides the file system.
#[derive(Debug)]
pub struct ScanPlan {
    /// Directories whose lower-cased path holds one of these are skipped.
    pub patterns: Vec<String>,
    /// `node_modules` last used at or before this moment are stale.
    pub stale_before: u64,
    pub node_modules_mode: NodeModulesMode,
}

/// Prepares a scan at time `now` (Unix seconds) on `os`: the user's ignore
/// patterns, normalised, followed by the system locations of `os`; and the
/// stale cutoff `stale_days` days before `now`.
pub fn plan_scan(request: &ScanRequest, now: u64, os: TargetOs) -> (r: ScanPlan)
    ensures
        texts(r.patterns@) == normalized_all(texts(request.ignore_patterns@)) + default_ignores(os),
        r.stale_before == stale_cutoff(now, request.stale_days),
        r.node_modules_mode == request.node_modules_mode,
{
    let mut patterns = normalize_patterns(request.ignore_patterns.as_slice());
    let mut defaults = default_ignore_patterns(os);
    let ghost user = patterns@;
    let ghost sys = defaults@;
    patterns.append(&mut defaults);
    assert(texts(patterns@) =~= texts(user) + texts(sys));
    let window = match request.stale_days.checked_mul(86400) {
        Some(w) => w,
        None => u64::MAX,
    };
    ScanPlan {
        patterns,
        stale_before: now.saturating_sub(window),
        node_modules_mode: request.node_modules_mode,
    }
}

/// What to do with one entry of the walk.
#[derive(Clone, Copy, Debug, PartialEq, Eq, Structural)]
pub enum EntryAction {
    /// Go on walking (into it, when it is a directory).
    Descend,
    /// Do not enter this directory.
    SkipDirectory,
    /// A `node_modules` directory: consider it as a candidate, and do not enter it.
    InspectNodeModules,
}

/// The name `node_modules`.
pub open spec fn node_modules_name() -> Seq<char> {
    seq!['n', 'o', 'd', 'e', '_', 'm', 'o', 'd', 'u', 'l', 'e', 's']
}

/// The view of an optional text.
pub open spec fn opt_str(s: Option<&str>) -> Option<Seq<char>> {
    match s {
        None => None,
        Some(t) => Some(t@),
    }
}

/// What to do with an entry at `path` named `name` (`None` when the name is
/// not valid Unicode): directories matching an ignore pattern are skipped;
/// directories named `node_modules` (in any ASCII case) are inspected.
pub open spec fn entry_action(
    patterns: Seq<Seq<char>>,
    is_dir: bool,
    path: Seq<char>,
    name: Option<Seq<char>>,
) -> EntryAction {
    if is_dir && holds_any(lowercase(path), patterns) {
        EntryAction::SkipDirectory
    } else if is_dir && name is Some && eq_ignore_ascii_case(name->0, node_modules_name()) {
        EntryAction::InspectNodeModules
    } else {
        EntryAction::Descend
    }
}

/// The decision about one entry of the walk.
#[derive(Clone, Copy, Debug, PartialEq, Eq, Structural)]
pub struct EntryDecision {
    pub action: EntryAction,
    /// A progress report is due: another 400 directories were seen.
    pub report_progress: bool,
}

/// Whether `name` is `node_modules`, in any ASCII case.
fn is_node_modules(name: &str) -> (r: bool)
    ensures
        r == eq_ignore_ascii_case(name@, node_modules_name()),
{
    let cs = chars_of(name);
    let target = vec!['n', 'o', 'd', 'e', '_', 'm', 'o', 'd', 'u', 'l', 'e', 's'];
    eq_ignore_case_ascii(cs.as_slice(), target.as_slice())
}

/// Decides about one entry of the walk and counts directories: `scanned_dirs`
/// goes up by one (saturating) for a directory, and every 400th directory
/// calls for a progress report.
pub fn observe_entry(
    scanned_dirs: &mut u64,
    plan: &ScanPlan,
    is_dir: bool,
    path: &str,
    file_name: Option<&str>,
) -> (r: EntryDecision)
    ensures
        *final(scanned_dirs) == if is_dir {
            (*old(scanned_dirs)).saturating_add(1)
        } else {
            *old(scanned_dirs)
        },
        r.report_progress == (is_dir && *final(scanned_dirs) % 400 == 0),
        r.action == entry_action(texts(plan.patterns@), is_dir, path@, opt_str(file_name)),
{
    let mut report_progress = false;
    if is_dir {
        *scanned_dirs = (*scanned_dirs).saturating_add(1);
        report_progress = *scanned_dirs % 400 == 0;
    }
    let action = if is_dir && should_ignore(path, plan.patterns.as_slice()) {
        EntryAction::SkipDirectory
    } else if is_dir && match file_name {
        Some(n) => is_node_modules(n),
        None => false,
    } {
        EntryAction::InspectNodeModules
    } else {
        EntryAction::Descend
    };
    EntryDecision { action, report_progress }
}

/// Whether a `node_modules` directory last used at `last_used` (0: unknown)
/// is reported: always in [`NodeModulesMode::All`]; in
/// [`NodeModulesMode::Stale`] when its use is unknown or not after the cutoff.
pub fn include_node_modules(plan: &ScanPlan, last_used: u64) -> (r: bool)
    ensures
        r == (plan.node_modules_mode == NodeModulesMode::All || last_used == 0 || last_used
            <= plan.stale_before),
{
    match plan.node_modules_mode {
        NodeModulesMode::All => true,
        NodeModulesMode::Stale => last_used == 0 || last_used <= plan.stale_before,
    }
}

/// The phases of a scan, in the order they run.
#[derive(Clone, Copy, Debug, PartialEq, Eq, Structural)]
pub enum ScanPhase {
    /// Walking the scan roots for `node_modules` directories.
    Walk,
    /// Measuring the package-manager caches.
    Caches,
    /// Asking whether Docker is available.
    DockerCheck,
    /// Reading Docker's reclaimable data.
    Docker,
    /// Sorting and totalling what was found.
    Report,
}

/// The phase that follows `phase`: a stop (`cancelled`) during the walk or
/// the caches skips straight to the report, Docker is read only when it is
/// available, and the report is last.
pub open spec fn phase_after(phase: ScanPhase, cancelled: bool, docker_available: bool) -> ScanPhase {
    match phase {
        ScanPhase::Walk => if cancelled {
            ScanPhase::Report
        } else {
            ScanPhase::Caches
        },
        ScanPhase::Caches => if cancelled {
            ScanPhase::Report
        } else {
            ScanPhase::DockerCheck
        },
        ScanPhase::DockerCheck => if docker_available {
            ScanPhase::Docker
        } else {
            ScanPhase::Report
        },
        ScanPhase::Docker => ScanPhase::Report,
        ScanPhase::Report => ScanPhase::Report,
    }
}

/// The phase that follows `phase`, given whether the scan was stopped during
/// it and, after the Docker check, whether Docker is available.
pub fn next_phase(phase: ScanPhase, cancelled: bool, docker_available: bool) -> (r: ScanPhase)
    ensures
        r == phase_after(phase, cancelled, docker_available),
{
    match phase {
        ScanPhase::Walk => if cancelled {
            ScanPhase::Report
        } else {
            ScanPhase::Caches
        },
        ScanPhase::Caches => if cancelled {
            ScanPhase::Report
        } else {
            ScanPhase::DockerCheck
        },
        ScanPhase::DockerCheck => if docker_available {
            ScanPhase::Docker
        } else {
            ScanPhase::Report
        },
        ScanPhase::Docker => ScanPhase::Report,
        ScanPhase::Report => ScanPhase::Report,
    }
}

/// Whether a cache directory is inspected: it exists and its path, lower-cased,
/// holds none of the (normalised) `patterns`.
pub fn cache_included(exists: bool, path: &str, patterns: &[String]) -> (r: bool)
    ensures
        r == (exists && !holds_any(lowercase(path@), texts(patterns@))),
{
    exists && !should_ignore(path, patterns)
}

/// The last-use time of a path from its timestamps, each `None` when the
/// file system does not provide it and `Some(None)` when it precedes the
/// Unix epoch: the access time, else the modification time, else the
/// creation time, counting one before the epoch (or none at all) as 0.
pub open spec fn last_used_spec(
    accessed: Option<Option<u64>>,
    modified: Option<Option<u64>>,
    created: Option<Option<u64>>,
) -> u64 {
    let best = if accessed is Some {
        accessed
    } else if modified is Some {
        modified
    } else {
        created
    };
    match best {
        Some(Some(secs)) => secs,
        _ => 0,
    }
}

/// The last-use time of a path from its timestamps (see [`last_used_spec`]);
/// a path whose metadata cannot be read has none of them and gets 0.
pub fn last_used_from(
    accessed: Option<Option<u64>>,
    modified: Option<Option<u64>>,
    created: Option<Option<u64>>,
) -> (r: u64)
    ensures
        r == last_used_spec(accessed, modified, created),
        accessed matches Some(Some(a)) ==> r == a,
        accessed is None ==> (modified matches Some(Some(m)) ==> r == m),
        accessed is None && modified is None ==> (created matches Some(Some(c)) ==> r == c),
        accessed == Some(None::<u64>) ==> r == 0,
        accessed is None && modified == Some(None::<u64>) ==> r == 0,
        accessed is None && modified is None && (created is None || created == Some(None::<u64>))
            ==> r == 0,
{
    let best = if accessed.is_some() {
        accessed
    } else if modified.is_some() {
        modified
    } else {
        created
    };
    match best {
        Some(Some(secs)) => secs,
        _ => 0,
    }
}

/// Reports a scan: the candidates sorted stably by `sort_by`, their number and
/// total size, and whether the scan was cancelled. `None` when the total does
/// not fit in a `u64`.
pub fn finish_scan(items: Vec<CleanupItem>, sort_by: SortBy, cancelled: bool) -> (r: Option<
    ScanResponse,
>)
    ensures
        match r {
            Some(resp) => {
                &&& stably_sorted(resp.items@, items@, sort_by)
                &&& sort_by == SortBy::Size ==> forall|i: int, j: int|
                    0 <= i < j < resp.items@.len() ==> #[trigger] resp.items@[i].size_bytes
                        >= #[trigger] resp.items@[j].size_bytes
                &&& sort_by == SortBy::LastUsed ==> forall|i: int, j: int|
                    0 <= i < j < resp.items@.len() ==> #[trigger] resp.items@[i].last_used_unix
                        <= #[trigger] resp.items@[j].last_used_unix
                &&& resp.total_bytes == total_size(items@)
                &&& resp.item_count == items@.len()
                &&& resp.cancelled == cancelled
            },
            None => total_size(items@) > u64::MAX,
        },
{
    let mut sorted = items;
    sort_items(&mut sorted, sort_by);
    match total_bytes(&sorted) {
        Some(total) => {
            let count = sorted.len();
            Some(ScanResponse { total_bytes: total, item_count: count, items: sorted, cancelled })
        },
        None => None,
    }
}

} // verus!
