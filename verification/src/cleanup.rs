//! Cleaning up: what to do for each selected item, and what a run reports.
use vstd::prelude::*;
use crate::docker::{docker_prune_args, prune_args, unsupported_kind_message};
use crate::model::{CleanupItem, CleanupResponse};
use crate::patterns::texts;
use crate::text::{chars_of, starts_with};

verus! {

/// What cleaning up one item takes.
#[derive(Debug)]
pub enum CleanupAction {
    /// Run `docker` with these arguments.
    Prune(Vec<String>),
    /// Delete the directory at the item's path, when it exists.
    RemoveDirectory,
    /// Nothing can be done; the item fails with this message.
    Fail(String),
}

/// The abstract form of a [`CleanupAction`].
pub enum PlannedAction {
    Prune(Seq<Seq<char>>),
    RemoveDirectory,
    Fail(Seq<char>),
}

/// The view of an action.
pub open spec fn action_view(a: CleanupAction) -> PlannedAction {
    match a {
        CleanupAction::Prune(args) => PlannedAction::Prune(texts(args@)),
        CleanupAction::RemoveDirectory => PlannedAction::RemoveDirectory,
        CleanupAction::Fail(msg) => PlannedAction::Fail(msg@),
    }
}

/// The kinds whose resources belong to Docker start with `docker_`.
pub open spec fn is_docker_kind(kind: Seq<char>) -> bool {
    seq!['d', 'o', 'c', 'k', 'e', 'r', '_'].is_prefix_of(kind)
}

/// The message for an item whose path is missing.
pub open spec fn missing_path_message() -> Seq<char> {
    "Path does not exist"@
}

/// What cleaning up an item of `kind` at `path` takes: the prune command for
/// a Docker kind (an error for an unknown one), otherwise deleting the path,
/// which must not be empty.
pub open spec fn planned_action(kind: Seq<char>, path: Seq<char>) -> PlannedAction {
    if is_docker_kind(kind) {
        match prune_args(kind) {
            Some(args) => PlannedAction::Prune(args),
            None => PlannedAction::Fail(unsupported_kind_message(kind)),
        }
    } else if path.len() == 0 {
        PlannedAction::Fail(missing_path_message())
    } else {
        PlannedAction::RemoveDirectory
    }
}

/// The message for an item whose path is missing (or empty).
pub fn missing_path_error() -> (r: String)
    ensures
        r@ == missing_path_message(),
{
    String::from_str("Path does not exist")
}

/// What cleaning up `item` takes.
pub fn cleanup_action(item: &CleanupItem) -> (r: CleanupAction)
    ensures
        action_view(r) == planned_action(item.kind@, item.path@),
        !seq!['d', 'o', 'c', 'k', 'e', 'r', '_'].is_prefix_of(item.kind@) ==> (r is RemoveDirectory
            <==> item.path@.len() > 0),
        !seq!['d', 'o', 'c', 'k', 'e', 'r', '_'].is_prefix_of(item.kind@) && item.path@.len() == 0
            ==> action_view(r) == PlannedAction::Fail(missing_path_message()),
        seq!['d', 'o', 'c', 'k', 'e', 'r', '_'].is_prefix_of(item.kind@) ==> !(r is RemoveDirectory),
{
    let kind = chars_of(item.kind.as_str());
    let prefix = vec!['d', 'o', 'c', 'k', 'e', 'r', '_'];
    if starts_with(kind.as_slice(), prefix.as_slice()) {
        match docker_prune_args(item.kind.as_str()) {
            Ok(args) => CleanupAction::Prune(args),
            Err(msg) => CleanupAction::Fail(msg),
        }
    } else if item.path.as_str().is_empty() {
        CleanupAction::Fail(missing_path_error())
    } else {
        CleanupAction::RemoveDirectory
    }
}

/// How cleaning up one item went.
#[derive(Clone, Copy, Debug, PartialEq, Eq, Structural)]
pub struct CleanupOutcome {
    /// The bytes the item was reported to hold.
    pub size_bytes: u64,
    pub succeeded: bool,
}

/// `a + b`, or `u64::MAX` when that does not fit.
pub open spec fn sat_add(a: u64, b: u64) -> u64 {
    if a + b > u64::MAX {
        u64::MAX
    } else {
        (a + b) as u64
    }
}

/// The bytes a run reports freed: the sizes of the items that succeeded,
/// added up with saturation.
pub open spec fn freed_bytes_of(s: Seq<CleanupOutcome>) -> u64
    decreases s.len(),
{
    if s.len() == 0 {
        0
    } else if s.last().succeeded {
        sat_add(freed_bytes_of(s.drop_last()), s.last().size_bytes)
    } else {
        freed_bytes_of(s.drop_last())
    }
}

/// The number of items that succeeded.
pub open spec fn successes(s: Seq<CleanupOutcome>) -> nat
    decreases s.len(),
{
    if s.len() == 0 {
        0
    } else {
        successes(s.drop_last()) + if s.last().succeeded {
            1nat
        } else {
            0nat
        }
    }
}

/// The exact sum of the sizes of the items that succeeded.
pub open spec fn succeeded_sum(s: Seq<CleanupOutcome>) -> nat
    decreases s.len(),
{
    if s.len() == 0 {
        0
    } else {
        succeeded_sum(s.drop_last()) + if s.last().succeeded {
            s.last().size_bytes as nat
        } else {
            0nat
        }
    }
}

/// At most all items succeed.
proof fn lemma_successes_bounded(s: Seq<CleanupOutcome>)
    ensures
        successes(s) <= s.len(),
    decreases s.len(),
{
    if s.len() > 0 {
        lemma_successes_bounded(s.drop_last());
    }
}

/// What a cleanup run reports, given the outcome of each item in order:
/// the bytes freed by the items that succeeded (saturating at `u64::MAX`),
/// how many succeeded and how many failed.
pub fn summarize_cleanup(outcomes: &[CleanupOutcome]) -> (r: CleanupResponse)
    ensures
        r.freed_bytes == freed_bytes_of(outcomes@),
        r.success_count == successes(outcomes@),
        r.failed_count == outcomes@.len() - successes(outcomes@),
        r.success_count + r.failed_count == outcomes@.len(),
{
    let mut freed: u64 = 0;
    let mut ok: usize = 0;
    let mut failed: usize = 0;
    let mut i: usize = 0;
    assert(outcomes@.take(0) =~= Seq::<CleanupOutcome>::empty());
    while i < outcomes.len()
        invariant
            i <= outcomes@.len(),
            freed == freed_bytes_of(outcomes@.take(i as int)),
            ok == successes(outcomes@.take(i as int)),
            ok + failed == i,
        decreases outcomes.len() - i,
    {
        let ghost prev = outcomes@.take(i as int);
        assert(outcomes@.take(i + 1).drop_last() =~= prev);
        proof {
            lemma_successes_bounded(prev);
        }
        let o = outcomes[i];
        if o.succeeded {
            ok = ok + 1;
            freed = freed.saturating_add(o.size_bytes);
        } else {
            failed = failed + 1;
        }
        i = i + 1;
    }
    assert(outcomes@.take(outcomes@.len() as int) =~= outcomes@);
    CleanupResponse { freed_bytes: freed, success_count: ok, failed_count: failed }
}

} // verus!
