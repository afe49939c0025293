//! Properties of the library that span several calls.
use vstd::prelude::*;
use crate::cleanup::{
    freed_bytes_of, missing_path_message, planned_action, succeeded_sum, CleanupOutcome,
    PlannedAction,
};
use crate::docker::{df_entry_spec, docker_candidates, prune_args, table_after};
use crate::model::DockerOptions;
use crate::items::{pushed, rank, rank_class, sorted_by, stably_sorted, well_formed_items};
use crate::model::{CleanupItem, SortBy};
use crate::docker::bytes_for;
use crate::model::TargetOs;
use crate::patterns::{default_ignores, holds_any, normalized, normalized_all};
use crate::scan::{entry_action, last_used_spec, phase_after, EntryAction, ScanPhase};
use crate::size::{
    human_size, is_unit, lemma_first_attempt, scale_answers, first_answer, lemma_digits_have_no_unit, lemma_plain_token, read_by, reads_as, size_token_spec,
    unit_attempts_spec,
};
use crate::tally::clamp;
use crate::text::{
    decimal_text, decimal_value, is_digit, lemma_decimal_text, lemma_digit_char_facts, ascii_lower, contains_seq, is_ascii_text, unicode_white_space, lemma_ascii_slice, lemma_lowercase_trimmed_ascii, lemma_trim_ws_fixed,
    lemma_trim_ws_slice, lowercase, trim_ws,
};

verus! {

/// How the last item of a sequence enters the rank classes.
proof fn lemma_rank_class_last(s: Seq<CleanupItem>, by: SortBy, r: int)
    requires
        s.len() > 0,
    ensures
        rank_class(s, by, r) == if rank(s.last(), by) == r {
            rank_class(s.drop_last(), by, r).push(s.last())
        } else {
            rank_class(s.drop_last(), by, r)
        },
{
    reveal(Seq::filter);
}

/// A non-empty rank class has a member of that rank.
proof fn lemma_rank_class_member(s: Seq<CleanupItem>, by: SortBy, r: int) -> (i: int)
    requires
        rank_class(s, by, r).len() > 0,
    ensures
        0 <= i < s.len(),
        rank(s[i], by) == r,
        s.contains(s[i]),
    decreases s.len(),
{
    reveal(Seq::filter);
    if s.len() == 0 {
        assert(false);
        0
    } else if rank(s.last(), by) == r {
        s.len() - 1
    } else {
        let j = lemma_rank_class_member(s.drop_last(), by, r);
        assert(s[j] == s.drop_last()[j]);
        j
    }
}

/// Every member of a rank class is a member of the sequence.
proof fn lemma_rank_class_subset(s: Seq<CleanupItem>, by: SortBy, r: int, k: int)
    requires
        0 <= k < rank_class(s, by, r).len(),
    ensures
        s.contains(rank_class(s, by, r)[k]),
        rank(rank_class(s, by, r)[k], by) == r,
    decreases s.len(),
{
    reveal(Seq::filter);
    if s.len() == 0 {
        assert(false);
    } else {
        lemma_rank_class_last(s, by, r);
        let prev = rank_class(s.drop_last(), by, r);
        if k < prev.len() {
            lemma_rank_class_subset(s.drop_last(), by, r, k);
            let x = prev[k];
            let j = choose|j: int| 0 <= j < s.drop_last().len() && s.drop_last()[j] == x;
            assert(s[j] == x);
        } else {
            assert(s[s.len() - 1] == s.last());
        }
    }
}

/// Two sequences that are both sorted by `by` and agree on every rank class
/// are equal.
proof fn lemma_sorted_classes_determine(a: Seq<CleanupItem>, b: Seq<CleanupItem>, by: SortBy)
    requires
        sorted_by(a, by),
        sorted_by(b, by),
        forall|r: int| #[trigger] rank_class(a, by, r) == rank_class(b, by, r),
    ensures
        a == b,
    decreases a.len() + b.len(),
{
    if a.len() == 0 && b.len() == 0 {
        assert(a =~= b);
    } else if a.len() == 0 {
        let rb = rank(b.last(), by);
        lemma_rank_class_last(b, by, rb);
        assert(rank_class(a, by, rb) == rank_class(b, by, rb));
        reveal(Seq::filter);
    } else if b.len() == 0 {
        let ra = rank(a.last(), by);
        lemma_rank_class_last(a, by, ra);
        assert(rank_class(a, by, ra) == rank_class(b, by, ra));
        reveal(Seq::filter);
    } else {
        let ra = rank(a.last(), by);
        let rb = rank(b.last(), by);
        lemma_rank_class_last(a, by, ra);
        lemma_rank_class_last(b, by, rb);
        assert(rank_class(a, by, ra) == rank_class(b, by, ra));
        assert(rank_class(a, by, rb) == rank_class(b, by, rb));
        let i = lemma_rank_class_member(b, by, ra);
        let j = lemma_rank_class_member(a, by, rb);
        if i < b.len() - 1 {
            assert(rank(b[i], by) <= rank(b[b.len() - 1], by));
        }
        if j < a.len() - 1 {
            assert(rank(a[j], by) <= rank(a[a.len() - 1], by));
        }
        assert(ra == rb);
        let a1 = a.drop_last();
        let b1 = b.drop_last();
        assert(rank_class(a1, by, ra).push(a.last()) == rank_class(b1, by, ra).push(b.last()));
        assert(a.last() == rank_class(a, by, ra).last());
        assert(b.last() == rank_class(b, by, ra).last());
        assert(rank_class(a1, by, ra) =~= rank_class(a, by, ra).drop_last());
        assert(rank_class(b1, by, ra) =~= rank_class(b, by, ra).drop_last());
        assert forall|r: int| #[trigger] rank_class(a1, by, r) == rank_class(b1, by, r) by {
            lemma_rank_class_last(a, by, r);
            lemma_rank_class_last(b, by, r);
            assert(rank_class(a, by, r) == rank_class(b, by, r));
            if r == ra {
                assert(rank_class(a1, by, r) =~= rank_class(a, by, r).drop_last());
                assert(rank_class(b1, by, r) =~= rank_class(b, by, r).drop_last());
            }
        }
        assert(sorted_by(a1, by));
        assert(sorted_by(b1, by));
        lemma_sorted_classes_determine(a1, b1, by);
        assert(a =~= a1.push(a.last()));
        assert(b =~= b1.push(b.last()));
    }
}

/// There is only one stable sort of a list: any two lists that are each a
/// stable sort of `s` by `by` are the same list. (So the order a scan reports
/// does not depend on how the sort is carried out.)
pub proof fn law_stable_sort_is_unique(s: Seq<CleanupItem>, a: Seq<CleanupItem>, b: Seq<CleanupItem>, by: SortBy)
    requires
        stably_sorted(a, s, by),
        stably_sorted(b, s, by),
    ensures
        a == b,
{
    assert forall|r: int| #[trigger] rank_class(a, by, r) == rank_class(b, by, r) by {
        assert(rank_class(a, by, r) == rank_class(s, by, r));
        assert(rank_class(b, by, r) == rank_class(s, by, r));
    }
    lemma_sorted_classes_determine(a, b, by);
}

/// Sorting a sorted list changes nothing: if `a` is a stable sort of `s` and
/// `b` a stable sort of `a` (by the same key), then `b` is `a`.
pub proof fn law_sorting_is_idempotent(s: Seq<CleanupItem>, a: Seq<CleanupItem>, b: Seq<CleanupItem>, by: SortBy)
    requires
        stably_sorted(a, s, by),
        stably_sorted(b, a, by),
    ensures
        b == a,
{
    assert forall|r: int| #[trigger] rank_class(b, by, r) == rank_class(a, by, r) by {}
    lemma_sorted_classes_determine(b, a, by);
}

/// Sorting neither invents nor loses items: every item of a stable sort of
/// `s` is an item of `s`, and every item of `s` is an item of the sort.
pub proof fn law_sorting_keeps_the_items(s: Seq<CleanupItem>, a: Seq<CleanupItem>, by: SortBy, x: CleanupItem)
    requires
        stably_sorted(a, s, by),
    ensures
        a.contains(x) <==> s.contains(x),
{
    let r = rank(x, by);
    if a.contains(x) {
        let i = choose|i: int| 0 <= i < a.len() && a[i] == x;
        lemma_member_in_class(a, by, i);
        assert(rank_class(a, by, r) == rank_class(s, by, r));
        let k = choose|k: int| 0 <= k < rank_class(a, by, r).len() && rank_class(a, by, r)[k] == x;
        lemma_rank_class_subset(s, by, r, k);
    }
    if s.contains(x) {
        let i = choose|i: int| 0 <= i < s.len() && s[i] == x;
        lemma_member_in_class(s, by, i);
        assert(rank_class(a, by, r) == rank_class(s, by, r));
        let k = choose|k: int| 0 <= k < rank_class(s, by, r).len() && rank_class(s, by, r)[k] == x;
        lemma_rank_class_subset(a, by, r, k);
    }
}

/// Each member of a sequence is in its rank class.
proof fn lemma_member_in_class(s: Seq<CleanupItem>, by: SortBy, i: int)
    requires
        0 <= i < s.len(),
    ensures
        exists|k: int|
            0 <= k < rank_class(s, by, rank(s[i], by)).len() && rank_class(s, by, rank(s[i], by))[k]
                == s[i],
    decreases s.len(),
{
    let r = rank(s[i], by);
    lemma_rank_class_last(s, by, r);
    if i == s.len() - 1 {
        let c = rank_class(s, by, r);
        assert(c[c.len() - 1] == s[i]);
    } else {
        lemma_member_in_class(s.drop_last(), by, i);
        assert(s.drop_last()[i] == s[i]);
        let k = choose|k: int|
            0 <= k < rank_class(s.drop_last(), by, r).len() && rank_class(s.drop_last(), by, r)[k]
                == s[i];
        assert(rank_class(s, by, r)[k] == s[i]);
    }
}

/// A scan reports only items that free something: when every candidate
/// collected frees space, so does every item of the sorted report.
pub proof fn law_reported_items_free_space(collected: Seq<CleanupItem>, reported: Seq<CleanupItem>, by: SortBy)
    requires
        forall|i: int| 0 <= i < collected.len() ==> (#[trigger] collected[i]).size_bytes > 0,
        stably_sorted(reported, collected, by),
    ensures
        forall|i: int| 0 <= i < reported.len() ==> (#[trigger] reported[i]).size_bytes > 0,
{
    assert forall|i: int| 0 <= i < reported.len() implies (#[trigger] reported[i]).size_bytes > 0 by {
        law_sorting_keeps_the_items(collected, reported, by, reported[i]);
        assert(reported.contains(reported[i]));
    }
}

/// Reading a type of the Docker disk-usage table gives back the bytes last
/// recorded for it, and recording one type leaves the others as they were.
pub proof fn law_table_read_after_record(m: Map<Seq<char>, u64>, kind: Seq<char>, bytes: u64, other: Seq<char>)
    requires
        kind.len() > 0,
    ensures
        bytes_for(m.insert(kind, bytes), kind) == bytes,
        other != kind ==> bytes_for(m.insert(kind, bytes), other) == bytes_for(m, other),
{
}

/// The system locations of `os` are never entered, whatever ignore patterns
/// the user gives: a directory whose lower-cased path holds one of them is
/// skipped under the patterns a scan is planned with (even when it is a
/// `node_modules` directory).
pub proof fn law_system_locations_always_skipped(
    user_patterns: Seq<Seq<char>>,
    os: TargetOs,
    path: Seq<char>,
    name: Option<Seq<char>>,
    i: int,
)
    requires
        0 <= i < default_ignores(os).len(),
        contains_seq(lowercase(path), default_ignores(os)[i]),
    ensures
        entry_action(normalized_all(user_patterns) + default_ignores(os), true, path, name)
            == EntryAction::SkipDirectory,
{
    let all = normalized_all(user_patterns) + default_ignores(os);
    let k = normalized_all(user_patterns).len() + i;
    assert(all[k] == default_ignores(os)[i]);
    assert(holds_any(lowercase(path), all));
}

/// The bytes a cleanup run reports freed are the exact total of the sizes of
/// the items that succeeded, or `u64::MAX` when that total does not fit.
pub proof fn law_freed_bytes_is_clamped_total(outcomes: Seq<CleanupOutcome>)
    ensures
        freed_bytes_of(outcomes) == clamp(succeeded_sum(outcomes)),
    decreases outcomes.len(),
{
    if outcomes.len() > 0 {
        law_freed_bytes_is_clamped_total(outcomes.drop_last());
    }
}

/// The items of rank `rank(x)` hold `x` as often as the whole sequence does.
proof fn lemma_class_count(s: Seq<CleanupItem>, by: SortBy, x: CleanupItem)
    ensures
        rank_class(s, by, rank(x, by)).to_multiset().count(x) == s.to_multiset().count(x),
    decreases s.len(),
{
    broadcast use vstd::seq_lib::group_to_multiset_ensures;

    if s.len() == 0 {
        assert(rank_class(s, by, rank(x, by)) =~= Seq::<CleanupItem>::empty());
    } else {
        let r = rank(x, by);
        lemma_class_count(s.drop_last(), by, x);
        lemma_rank_class_last(s, by, r);
        assert(s =~= s.drop_last().push(s.last()));
    }
}

/// A stable sort holds the same items as the list it sorts, each as often:
/// whatever key two scans sort the same candidates by, their reports are
/// permutations of each other.
pub proof fn law_sorting_keeps_each_item_count(
    s: Seq<CleanupItem>,
    a: Seq<CleanupItem>,
    by_a: SortBy,
    b: Seq<CleanupItem>,
    by_b: SortBy,
)
    requires
        stably_sorted(a, s, by_a),
        stably_sorted(b, s, by_b),
    ensures
        a.to_multiset() == s.to_multiset(),
        a.to_multiset() == b.to_multiset(),
{
    assert forall|x: CleanupItem| a.to_multiset().count(x) == s.to_multiset().count(x) by {
        lemma_class_count(a, by_a, x);
        lemma_class_count(s, by_a, x);
        assert(rank_class(a, by_a, rank(x, by_a)) == rank_class(s, by_a, rank(x, by_a)));
    }
    assert forall|x: CleanupItem| b.to_multiset().count(x) == s.to_multiset().count(x) by {
        lemma_class_count(b, by_b, x);
        lemma_class_count(s, by_b, x);
        assert(rank_class(b, by_b, rank(x, by_b)) == rank_class(s, by_b, rank(x, by_b)));
    }
    assert(a.to_multiset() =~= s.to_multiset());
    assert(b.to_multiset() =~= s.to_multiset());
}

/// A list of candidates built by appending with `push_item` (from an empty
/// list, which holds no items) stays well formed: every item frees space and
/// is identified by `"<kind>:<path>"`; each call adds one item exactly when
/// its size is not zero.
pub proof fn law_pushed_items_stay_well_formed(
    before: Seq<CleanupItem>,
    after: Seq<CleanupItem>,
    kind: Seq<char>,
    path: Seq<char>,
    size_bytes: u64,
    last_used_unix: u64,
    risk: Seq<char>,
    source: Seq<char>,
)
    requires
        well_formed_items(before),
        pushed(before, after, kind, path, size_bytes, last_used_unix, risk, source),
    ensures
        well_formed_items(after),
        after.len() == before.len() + if size_bytes == 0 {
            0int
        } else {
            1int
        },
{
    if size_bytes != 0 {
        assert forall|i: int| 0 <= i < after.len() implies #[trigger] after[i].size_bytes > 0
            && after[i].id@ == after[i].kind@ + seq![':'] + after[i].path@ by {
            if i < before.len() {
                assert(after[i] == after.drop_last()[i]);
            }
        }
    }
}

/// A pattern normalised from ASCII text is ASCII and normalises to itself.
proof fn lemma_normalized_ascii(p: Seq<char>)
    requires
        is_ascii_text(p),
    ensures
        normalized(p) matches Some(q) ==> is_ascii_text(q) && normalized(q) == Some(q),
{
    let t = trim_ws(p);
    if t.len() > 0 {
        let b = lemma_trim_ws_slice(p);
        lemma_ascii_slice(p, b.0, b.1);
        lemma_trim_ws_fixed(t);
        lemma_lowercase_trimmed_ascii(t);
    }
}

/// Normalising ASCII patterns a second time changes nothing: the patterns a
/// scan matches with are already trimmed, lower-cased and free of blanks.
pub proof fn law_normalizing_twice_changes_nothing(raw: Seq<Seq<char>>)
    requires
        forall|i: int| 0 <= i < raw.len() ==> is_ascii_text(#[trigger] raw[i]),
    ensures
        normalized_all(normalized_all(raw)) == normalized_all(raw),
        forall|i: int|
            0 <= i < normalized_all(raw).len() ==> is_ascii_text(#[trigger] normalized_all(raw)[i]),
    decreases raw.len(),
{
    if raw.len() > 0 {
        let rest = raw.drop_last();
        assert forall|i: int| 0 <= i < rest.len() implies is_ascii_text(#[trigger] rest[i]) by {
            assert(rest[i] == raw[i]);
        }
        law_normalizing_twice_changes_nothing(rest);
        let prev = normalized_all(rest);
        assert(is_ascii_text(raw[raw.len() - 1]));
        lemma_normalized_ascii(raw.last());
        match normalized(raw.last()) {
            Some(q) => {
                assert(normalized_all(raw) == prev.push(q));
                assert(prev.push(q).drop_last() =~= prev);
                assert(normalized_all(prev.push(q)) == normalized_all(prev).push(q));
                assert forall|i: int| 0 <= i < prev.push(q).len() implies is_ascii_text(
                    #[trigger] prev.push(q)[i],
                ) by {
                    if i < prev.len() {
                        assert(prev.push(q)[i] == prev[i]);
                    }
                }
            },
            None => {},
        }
    }
}

/// ASCII text without upper-case letters, starting and ending with
/// something other than whitespace, is already a normalised pattern.
proof fn lemma_plain_pattern(p: Seq<char>)
    requires
        p.len() > 0,
        forall|i: int|
            0 <= i < p.len() ==> (#[trigger] p[i] as u32) < 65 || 90 < (p[i] as u32) < 128,
        !unicode_white_space(p[0]),
        !unicode_white_space(p.last()),
    ensures
        normalized(p) == Some(p),
{
    lemma_trim_ws_fixed(p);
    assert(is_ascii_text(p));
    let q = p.map_values(|c: char| ascii_lower(c));
    assert forall|k: int| 0 <= k < p.len() implies #[trigger] q[k] == p[k] by {
        assert((p[k] as u32) < 65 || (p[k] as u32) > 90);
    }
    assert(q =~= p);
}

/// Patterns that each normalise to themselves are their own normalisation.
proof fn lemma_normalized_all_fixed(raw: Seq<Seq<char>>)
    requires
        forall|i: int| 0 <= i < raw.len() ==> normalized(#[trigger] raw[i]) == Some(raw[i]),
    ensures
        normalized_all(raw) == raw,
    decreases raw.len(),
{
    if raw.len() > 0 {
        let rest = raw.drop_last();
        assert forall|i: int| 0 <= i < rest.len() implies normalized(#[trigger] rest[i]) == Some(
            rest[i],
        ) by {
            assert(rest[i] == raw[i]);
        }
        lemma_normalized_all_fixed(rest);
        assert(normalized(raw[raw.len() - 1]) == Some(raw[raw.len() - 1]));
        assert(rest.push(raw.last()) =~= raw);
    }
}

/// The system locations a scan never enters are already normalised patterns:
/// trimmed, lower case and not blank, so they match the lower-cased paths
/// they are tested against.
pub proof fn law_default_patterns_are_normalized(os: TargetOs)
    ensures
        normalized_all(default_ignores(os)) == default_ignores(os),
{
    reveal_strlit("\\windows\\");
    reveal_strlit("\\program files\\");
    reveal_strlit("\\program files (x86)\\");
    reveal_strlit("\\$recycle.bin\\");
    reveal_strlit("\\system volume information\\");
    reveal_strlit("/system/");
    reveal_strlit("/private/");
    reveal_strlit("/applications/");
    reveal_strlit("/volumes/");
    reveal_strlit("/dev/");
    reveal_strlit("/proc/");
    reveal_strlit("/sys/");
    reveal_strlit("/tmp/");
    let d = default_ignores(os);
    assert forall|i: int| 0 <= i < d.len() implies normalized(#[trigger] d[i]) == Some(d[i]) by {
        lemma_plain_pattern(d[i]);
    }
    lemma_normalized_all_fixed(d);
}

/// The decimal text of a number reads as that number: a size printed as a
/// plain byte count (`n.to_string()`) is read back exactly, whatever `scale`.
pub proof fn law_decimal_text_reads_as_its_value<F: Fn(&str, u64) -> Option<u64>>(
    scale: F,
    n: u64,
    r: u64,
)
    requires
        reads_as(scale, decimal_text(n as nat), r),
    ensures
        r == n,
{
    let t = decimal_text(n as nat);
    lemma_decimal_text(n as nat);
    assert forall|i: int| 0 <= i < t.len() implies is_digit(#[trigger] t[i]) || 'A' <= t[i] <= 'Z' by {}
    lemma_plain_token(t);
    lemma_digits_have_no_unit(t);
    lemma_digit_char_facts(t[0]);
    let answers = choose|answers: Seq<Option<u64>>| #[trigger] read_by(scale, t, answers, r);
    assert(answers.len() == 0);
    assert(first_answer(answers) is None);
    assert(decimal_value(t) == n);
}

/// A number followed by a unit (`B`, `KB`, `MB`, `GB` or `TB`) reads as the
/// number times the unit's bytes, when `scale` turns the number in that unit
/// into exactly that many bytes.
pub proof fn law_number_with_unit_reads_as_product<F: Fn(&str, u64) -> Option<u64>>(
    scale: F,
    n: u64,
    unit: Seq<char>,
    m: u64,
    r: u64,
)
    requires
        is_unit(unit, m),
        n * m <= u64::MAX,
        forall|x: &str, a: Option<u64>|
            x@ == decimal_text(n as nat) && #[trigger] call_ensures(scale, (x, m), a) ==> a == Some(
                (n * m) as u64,
            ),
        reads_as(scale, decimal_text(n as nat) + unit, r),
    ensures
        r == n * m,
{
    let ds = decimal_text(n as nat);
    let t = ds + unit;
    lemma_decimal_text(n as nat);
    assert forall|i: int| 0 <= i < t.len() implies is_digit(#[trigger] t[i]) || 'A' <= t[i] <= 'Z' by {
        if i < ds.len() {
            assert(t[i] == ds[i]);
        } else {
            assert(t[i] == unit[i - ds.len()]);
        }
    }
    lemma_plain_token(t);
    lemma_first_attempt(ds, unit, m);
    let answers = choose|answers: Seq<Option<u64>>| #[trigger] read_by(scale, t, answers, r);
    let attempts = unit_attempts_spec(t);
    assert(answers.len() == attempts.len());
    assert(scale_answers(scale, attempts[0].0, attempts[0].1, answers[0]));
    assert(answers[0] == Some((n * m) as u64));
    assert(first_answer(answers) == answers[0]);
    assert(r == human_size(t, answers));
}

/// The phase a scan is in after as many phases as `cancels` holds, starting
/// from the walk: `cancels[i]` tells whether it was stopped during the `i`-th.
pub open spec fn phase_run(cancels: Seq<bool>, docker_available: bool) -> ScanPhase
    decreases cancels.len(),
{
    if cancels.len() == 0 {
        ScanPhase::Walk
    } else {
        phase_after(phase_run(cancels.drop_last(), docker_available), cancels.last(), docker_available)
    }
}

/// A scan always ends in its report within four phases, and a stop during
/// the walk or during the caches leads straight to the report: no cache and
/// no Docker data is read after it.
pub proof fn law_scan_phases_end_in_report(cancels: Seq<bool>, docker_available: bool)
    requires
        cancels.len() >= 4,
    ensures
        phase_run(cancels, docker_available) == ScanPhase::Report,
        phase_run(cancels.take(1), docker_available) == ScanPhase::Report || phase_run(
            cancels.take(1),
            docker_available,
        ) == ScanPhase::Caches,
        cancels[0] ==> phase_run(cancels.take(1), docker_available) == ScanPhase::Report,
        !cancels[0] && cancels[1] ==> phase_run(cancels.take(2), docker_available)
            == ScanPhase::Report,
    decreases cancels.len(),
{
    let d = docker_available;
    assert(cancels.take(1).drop_last() =~= cancels.take(0));
    assert(cancels.take(2).drop_last() =~= cancels.take(1));
    assert(cancels.take(3).drop_last() =~= cancels.take(2));
    assert(cancels.take(4).drop_last() =~= cancels.take(3));
    assert(cancels.take(1).last() == cancels[0]);
    assert(cancels.take(2).last() == cancels[1]);
    assert(cancels.take(3).last() == cancels[2]);
    assert(cancels.take(4).last() == cancels[3]);
    assert(phase_run(cancels.take(0), d) == ScanPhase::Walk);
    let p1 = phase_run(cancels.take(1), d);
    let p2 = phase_run(cancels.take(2), d);
    let p3 = phase_run(cancels.take(3), d);
    assert(p1 == phase_after(ScanPhase::Walk, cancels[0], d));
    assert(p2 == phase_after(p1, cancels[1], d));
    assert(p3 == phase_after(p2, cancels[2], d));
    assert(phase_run(cancels.take(4), d) == phase_after(p3, cancels[3], d));
    if cancels.len() > 4 {
        law_scan_phases_end_in_report(cancels.drop_last(), d);
        assert(cancels.drop_last().take(1) =~= cancels.take(1));
        assert(cancels.drop_last().take(2) =~= cancels.take(2));
    } else {
        assert(cancels.take(4) =~= cancels);
    }
}

/// A list sorted by size runs from the largest item to the smallest, by the
/// full size in bytes; one sorted by last use runs from the least recently
/// used item to the most recently used.
pub proof fn law_sort_order_follows_the_key(s: Seq<CleanupItem>, a: Seq<CleanupItem>, by: SortBy)
    requires
        stably_sorted(a, s, by),
    ensures
        by == SortBy::Size ==> forall|i: int, j: int|
            0 <= i < j < a.len() ==> #[trigger] a[i].size_bytes >= #[trigger] a[j].size_bytes,
        by == SortBy::LastUsed ==> forall|i: int, j: int|
            0 <= i < j < a.len() ==> #[trigger] a[i].last_used_unix <= #[trigger] a[j].last_used_unix,
{
    assert forall|i: int, j: int| 0 <= i < j < a.len() implies rank(#[trigger] a[i], by) <= rank(
        #[trigger] a[j],
        by,
    ) by {}
}

/// The last use of a directory is its access time whenever the file system
/// gives one; the modification time counts only when there is no access
/// time, and the creation time only when there is neither. A time before the
/// epoch, or none at all, counts as 0.
pub proof fn law_last_use_prefers_access_time(
    accessed: Option<Option<u64>>,
    modified: Option<Option<u64>>,
    created: Option<Option<u64>>,
)
    ensures
        accessed matches Some(Some(a)) ==> last_used_spec(accessed, modified, created) == a,
        accessed == Some(None::<u64>) ==> last_used_spec(accessed, modified, created) == 0,
        accessed is None ==> last_used_spec(accessed, modified, created) == last_used_spec(
            modified,
            created,
            None,
        ),
        last_used_spec(None, None, created) == match created {
            Some(Some(c)) => c,
            _ => 0,
        },
{
}

/// Cleaning up an item that is not Docker's deletes its directory exactly
/// when it has a path (whatever form the path takes), and fails with the
/// missing-path message otherwise; a Docker item is never deleted as a
/// directory, but pruned by the command for its kind, or refused when the
/// kind has none.
pub proof fn law_cleanup_removes_every_non_docker_path(kind: Seq<char>, path: Seq<char>)
    ensures
        !seq!['d', 'o', 'c', 'k', 'e', 'r', '_'].is_prefix_of(kind) && path.len() > 0
            ==> planned_action(kind, path) == PlannedAction::RemoveDirectory,
        !seq!['d', 'o', 'c', 'k', 'e', 'r', '_'].is_prefix_of(kind) && path.len() == 0
            ==> planned_action(kind, path) == PlannedAction::Fail(missing_path_message()),
        seq!['d', 'o', 'c', 'k', 'e', 'r', '_'].is_prefix_of(kind) ==> match prune_args(kind) {
            Some(args) => planned_action(kind, path) == PlannedAction::Prune(args),
            None => planned_action(kind, path) is Fail,
        },
{
}

/// A candidate that its own option selects, with the size that option reads.
spec fn selected_by(x: (Seq<char>, Seq<char>, u64, Seq<char>), opts: DockerOptions, dangling: u64, df: Map<Seq<char>, u64>) -> bool {
    ||| x.0 == "docker_dangling_images"@ && opts.dangling_images && x.2 == dangling
    ||| x.0 == "docker_unused_images"@ && opts.unused_images && x.2 == bytes_for(df, "images"@)
    ||| x.0 == "docker_stopped_containers"@ && opts.stopped_containers && x.2 == bytes_for(df, "containers"@)
    ||| x.0 == "docker_build_cache"@ && opts.build_cache && x.2 == bytes_for(df, "build cache"@)
    ||| x.0 == "docker_volumes"@ && opts.volumes && x.2 == bytes_for(df, "local volumes"@)
}

/// Appending an optional candidate keeps what was there and adds it at the end.
proof fn lemma_append_when(
    s: Seq<(Seq<char>, Seq<char>, u64, Seq<char>)>,
    b: bool,
    x: (Seq<char>, Seq<char>, u64, Seq<char>),
)
    ensures
        (s + crate::docker::when(b, x)).len() == s.len() + if b {
            1int
        } else {
            0int
        },
        forall|i: int| 0 <= i < s.len() ==> #[trigger] (s + crate::docker::when(b, x))[i] == s[i],
        b ==> (s + crate::docker::when(b, x))[s.len() as int] == x,
{
}

/// The Docker candidates a scan offers follow the options exactly: a kind is
/// offered only when its own option is on, and then with the size that
/// option reads (the dangling-image bytes, or the table's bytes for images,
/// containers, build cache or local volumes); no other kind appears.
pub proof fn law_docker_candidates_follow_options(
    opts: DockerOptions,
    dangling: u64,
    df: Map<Seq<char>, u64>,
)
    ensures
        forall|i: int|
            0 <= i < docker_candidates(opts, dangling, df).len() && (
            #[trigger] docker_candidates(opts, dangling, df)[i]).0 == "docker_dangling_images"@ ==> opts.dangling_images
                && docker_candidates(opts, dangling, df)[i].2 == dangling,
        opts.dangling_images ==> exists|i: int|
            0 <= i < docker_candidates(opts, dangling, df).len() && (
            #[trigger] docker_candidates(opts, dangling, df)[i]).0 == "docker_dangling_images"@,
        forall|i: int|
            0 <= i < docker_candidates(opts, dangling, df).len() && (
            #[trigger] docker_candidates(opts, dangling, df)[i]).0 == "docker_unused_images"@ ==> opts.unused_images
                && docker_candidates(opts, dangling, df)[i].2 == bytes_for(df, "images"@),
        opts.unused_images ==> exists|i: int|
            0 <= i < docker_candidates(opts, dangling, df).len() && (
            #[trigger] docker_candidates(opts, dangling, df)[i]).0 == "docker_unused_images"@,
        forall|i: int|
            0 <= i < docker_candidates(opts, dangling, df).len() && (
            #[trigger] docker_candidates(opts, dangling, df)[i]).0 == "docker_stopped_containers"@ ==> opts.stopped_containers
                && docker_candidates(opts, dangling, df)[i].2 == bytes_for(df, "containers"@),
        opts.stopped_containers ==> exists|i: int|
            0 <= i < docker_candidates(opts, dangling, df).len() && (
            #[trigger] docker_candidates(opts, dangling, df)[i]).0 == "docker_stopped_containers"@,
        forall|i: int|
            0 <= i < docker_candidates(opts, dangling, df).len() && (
            #[trigger] docker_candidates(opts, dangling, df)[i]).0 == "docker_build_cache"@ ==> opts.build_cache
                && docker_candidates(opts, dangling, df)[i].2 == bytes_for(df, "build cache"@),
        opts.build_cache ==> exists|i: int|
            0 <= i < docker_candidates(opts, dangling, df).len() && (
            #[trigger] docker_candidates(opts, dangling, df)[i]).0 == "docker_build_cache"@,
        forall|i: int|
            0 <= i < docker_candidates(opts, dangling, df).len() && (
            #[trigger] docker_candidates(opts, dangling, df)[i]).0 == "docker_volumes"@ ==> opts.volumes
                && docker_candidates(opts, dangling, df)[i].2 == bytes_for(df, "local volumes"@),
        opts.volumes ==> exists|i: int|
            0 <= i < docker_candidates(opts, dangling, df).len() && (
            #[trigger] docker_candidates(opts, dangling, df)[i]).0 == "docker_volumes"@,
        forall|i: int|
            0 <= i < docker_candidates(opts, dangling, df).len() ==> docker_candidates(opts, dangling, df)[i].0 == "docker_dangling_images"@ || docker_candidates(opts, dangling, df)[i].0 == "docker_unused_images"@ || docker_candidates(opts, dangling, df)[i].0 == "docker_stopped_containers"@ || docker_candidates(opts, dangling, df)[i].0 == "docker_build_cache"@ || docker_candidates(opts, dangling, df)[i].0 == "docker_volumes"@,
{
    reveal_strlit("docker_dangling_images");
    reveal_strlit("docker_unused_images");
    reveal_strlit("docker_stopped_containers");
    reveal_strlit("docker_build_cache");
    reveal_strlit("docker_volumes");
    let x0 = ("docker_dangling_images"@, "docker://dangling_images"@, dangling, "Dangling image cleanup is usually safe"@);
    let s0 = Seq::<(Seq<char>, Seq<char>, u64, Seq<char>)>::empty() + crate::docker::when(opts.dangling_images, x0);
    lemma_append_when(Seq::<(Seq<char>, Seq<char>, u64, Seq<char>)>::empty(), opts.dangling_images, x0);
    let x1 = ("docker_unused_images"@, "docker://unused_images"@, bytes_for(df, "images"@), "Unused images may be pulled again later"@);
    let s1 = s0 + crate::docker::when(opts.unused_images, x1);
    lemma_append_when(s0, opts.unused_images, x1);
    let x2 = ("docker_stopped_containers"@, "docker://stopped_containers"@, bytes_for(df, "containers"@), "Stopped containers may include useful debug state"@);
    let s2 = s1 + crate::docker::when(opts.stopped_containers, x2);
    lemma_append_when(s1, opts.stopped_containers, x2);
    let x3 = ("docker_build_cache"@, "docker://build_cache"@, bytes_for(df, "build cache"@), "Build cache cleanup increases next build duration"@);
    let s3 = s2 + crate::docker::when(opts.build_cache, x3);
    lemma_append_when(s2, opts.build_cache, x3);
    let x4 = ("docker_volumes"@, "docker://volumes"@, bytes_for(df, "local volumes"@), "Volume cleanup may remove persisted data"@);
    let s4 = s3 + crate::docker::when(opts.volumes, x4);
    lemma_append_when(s3, opts.volumes, x4);
    assert("docker_dangling_images"@[7] == 'd');
    assert("docker_unused_images"@[7] == 'u');
    assert("docker_stopped_containers"@[7] == 's');
    assert("docker_build_cache"@[7] == 'b');
    assert("docker_volumes"@[7] == 'v');
    let c = docker_candidates(opts, dangling, df);
    assert(c =~= s4);
    assert forall|i: int| 0 <= i < c.len() implies selected_by(#[trigger] c[i], opts, dangling, df) by {
        if i < s3.len() {
            if i < s2.len() {
                if i < s1.len() {
                    if i < s0.len() {
                    }
                }
            }
        }
    }
    if opts.dangling_images {
        assert(c[0] == x0);
    }
    if opts.unused_images {
        assert(c[s0.len() as int] == x1);
    }
    if opts.stopped_containers {
        assert(c[s1.len() as int] == x2);
    }
    if opts.build_cache {
        assert(c[s2.len() as int] == x3);
    }
    if opts.volumes {
        assert(c[s3.len() as int] == x4);
    }
}

/// Report line `line` is JSON whose lower-cased type is `key`.
pub open spec fn line_has_type(line: Seq<char>, key: Seq<char>) -> bool {
    match df_entry_spec(line) {
        Some(e) => e.0 == key,
        None => false,
    }
}

/// What the last report line does to the table, for one type `key`.
proof fn lemma_table_last_line(lines: Seq<Seq<char>>, sizes: Seq<u64>, key: Seq<char>)
    requires
        lines.len() > 0,
        sizes.len() == lines.len(),
    ensures
        ({
            let t = table_after(lines, sizes);
            let p = table_after(lines.drop_last(), sizes.drop_last());
            &&& key.len() > 0 && line_has_type(lines.last(), key) ==> t.contains_key(key) && t[key]
                == sizes.last()
            &&& !line_has_type(lines.last(), key) ==> (t.contains_key(key) == p.contains_key(key)
                && (p.contains_key(key) ==> t[key] == p[key]))
            &&& key.len() == 0 ==> (t.contains_key(key) == p.contains_key(key))
        }),
{
}

/// No report line records an empty type.
proof fn lemma_table_no_empty_type(lines: Seq<Seq<char>>, sizes: Seq<u64>)
    requires
        sizes.len() == lines.len(),
    ensures
        !table_after(lines, sizes).contains_key(Seq::<char>::empty()),
    decreases lines.len(),
{
    if lines.len() > 0 {
        lemma_table_no_empty_type(lines.drop_last(), sizes.drop_last());
        lemma_table_last_line(lines, sizes, Seq::<char>::empty());
    }
}

/// A type is in the table exactly when some report line names it.
proof fn lemma_table_has_type(lines: Seq<Seq<char>>, sizes: Seq<u64>, key: Seq<char>)
    requires
        sizes.len() == lines.len(),
        key.len() > 0,
    ensures
        table_after(lines, sizes).contains_key(key) <==> exists|k: int|
            0 <= k < lines.len() && line_has_type(#[trigger] lines[k], key),
    decreases lines.len(),
{
    if lines.len() > 0 {
        let n = lines.len() - 1;
        let pl = lines.drop_last();
        lemma_table_has_type(pl, sizes.drop_last(), key);
        lemma_table_last_line(lines, sizes, key);
        assert(lines.last() == lines[n]);
        if exists|k: int| 0 <= k < lines.len() && line_has_type(#[trigger] lines[k], key) {
            let k = choose|k: int| 0 <= k < lines.len() && line_has_type(#[trigger] lines[k], key);
            if k < n {
                assert(pl[k] == lines[k]);
            }
        }
        if exists|k: int| 0 <= k < pl.len() && line_has_type(#[trigger] pl[k], key) {
            let k = choose|k: int| 0 <= k < pl.len() && line_has_type(#[trigger] pl[k], key);
            assert(pl[k] == lines[k]);
        }
    }
}

/// The bytes recorded for a type are those of the last line that names it.
proof fn lemma_table_type_bytes(lines: Seq<Seq<char>>, sizes: Seq<u64>, key: Seq<char>, k: int)
    requires
        sizes.len() == lines.len(),
        key.len() > 0,
        0 <= k < lines.len(),
        line_has_type(lines[k], key),
        forall|j: int| k < j < lines.len() ==> !line_has_type(#[trigger] lines[j], key),
    ensures
        table_after(lines, sizes).contains_key(key),
        table_after(lines, sizes)[key] == sizes[k],
    decreases lines.len(),
{
    let n = lines.len() - 1;
    let pl = lines.drop_last();
    let ps = sizes.drop_last();
    lemma_table_last_line(lines, sizes, key);
    assert(lines.last() == lines[n]);
    if k < n {
        assert(!line_has_type(lines[n], key));
        assert(pl[k] == lines[k]);
        assert(ps[k] == sizes[k]);
        assert forall|j: int| k < j < pl.len() implies !line_has_type(#[trigger] pl[j], key) by {
            assert(pl[j] == lines[j]);
        }
        lemma_table_type_bytes(pl, ps, key, k);
    }
}

/// Reading a `docker system df` report records every resource type that one
/// of its lines names, from the first line to the last, and no other: the
/// bytes recorded for a type are those read from the last line that names it,
/// and a line without a type records nothing.
pub proof fn law_report_table_keeps_last_reading(
    lines: Seq<Seq<char>>,
    sizes: Seq<u64>,
    key: Seq<char>,
)
    requires
        sizes.len() == lines.len(),
    ensures
        key.len() > 0 ==> (table_after(lines, sizes).contains_key(key) <==> exists|k: int|
            0 <= k < lines.len() && line_has_type(#[trigger] lines[k], key)),
        key.len() > 0 ==> forall|k: int|
            0 <= k < lines.len() && line_has_type(#[trigger] lines[k], key) && (forall|j: int|
                k < j < lines.len() ==> !line_has_type(#[trigger] lines[j], key))
                ==> table_after(lines, sizes)[key] == sizes[k],
        !table_after(lines, sizes).contains_key(Seq::<char>::empty()),
{
    lemma_table_no_empty_type(lines, sizes);
    if key.len() > 0 {
        lemma_table_has_type(lines, sizes, key);
        assert forall|k: int|
            0 <= k < lines.len() && line_has_type(#[trigger] lines[k], key) && (forall|j: int|
                k < j < lines.len() ==> !line_has_type(#[trigger] lines[j], key)) implies table_after(
            lines,
            sizes,
        )[key] == sizes[k] by {
            lemma_table_type_bytes(lines, sizes, key, k);
        }
    }
}

} // verus!
