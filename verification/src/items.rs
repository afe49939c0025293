//! Building, ordering and totalling the list of cleanup candidates.
use vstd::prelude::*;
use crate::model::{CleanupItem, SortBy};

verus! {

// ---------------------------------------------------------------------------
// Specifications
// ---------------------------------------------------------------------------

/// `item` describes `path` of the given kind, size, age, risk and source,
/// and its id is `"<kind>:<path>"`.
pub open spec fn describes(
    item: CleanupItem,
    kind: Seq<char>,
    path: Seq<char>,
    size_bytes: u64,
    last_used_unix: u64,
    risk: Seq<char>,
    source: Seq<char>,
) -> bool {
    &&& item.id@ == kind + seq![':'] + path
    &&& item.kind@ == kind
    &&& item.path@ == path
    &&& item.size_bytes == size_bytes
    &&& item.last_used_unix == last_used_unix
    &&& item.risk@ == risk
    &&& item.source@ == source
}

/// The position of an item in an ordering: items of lower rank come first.
/// Sorting by size puts larger items first; sorting by last use puts the
/// least recently used first.
pub open spec fn rank(item: CleanupItem, by: SortBy) -> int {
    match by {
        SortBy::Size => -(item.size_bytes as int),
        SortBy::LastUsed => item.last_used_unix as int,
    }
}

/// The test "has rank `r`".
pub open spec fn has_rank(by: SortBy, r: int) -> spec_fn(CleanupItem) -> bool {
    |x: CleanupItem| rank(x, by) == r
}

/// The items of `s` that have rank `r`, in their order in `s`.
pub open spec fn rank_class(s: Seq<CleanupItem>, by: SortBy, r: int) -> Seq<CleanupItem> {
    s.filter(has_rank(by, r))
}

/// The ranks of `s` never decrease.
pub open spec fn sorted_by(s: Seq<CleanupItem>, by: SortBy) -> bool {
    forall|i: int, j: int| 0 <= i < j < s.len() ==> rank(#[trigger] s[i], by) <= rank(#[trigger] s[j], by)
}

/// `result` is `input` stably sorted: ordered by rank, and the items of each
/// rank appear in the same order as in `input` (so nothing is lost, added or
/// reordered among equals).
pub open spec fn stably_sorted(result: Seq<CleanupItem>, input: Seq<CleanupItem>, by: SortBy) -> bool {
    &&& result.len() == input.len()
    &&& sorted_by(result, by)
    &&& forall|r: int| #[trigger] rank_class(result, by, r) == rank_class(input, by, r)
}

/// The sum of the sizes of `s`.
pub open spec fn total_size(s: Seq<CleanupItem>) -> nat
    decreases s.len(),
{
    if s.len() == 0 {
        0
    } else {
        total_size(s.drop_last()) + s.last().size_bytes as nat
    }
}

/// `after` is `before` with an item for `path` appended, unless it would
/// free nothing (`size_bytes == 0`), in which case nothing changes.
pub open spec fn pushed(
    before: Seq<CleanupItem>,
    after: Seq<CleanupItem>,
    kind: Seq<char>,
    path: Seq<char>,
    size_bytes: u64,
    last_used_unix: u64,
    risk: Seq<char>,
    source: Seq<char>,
) -> bool {
    if size_bytes == 0 {
        after == before
    } else {
        &&& after.len() == before.len() + 1
        &&& after.drop_last() == before
        &&& describes(after.last(), kind, path, size_bytes, last_used_unix, risk, source)
    }
}

/// Every item of `s` frees space and is identified by `"<kind>:<path>"`.
pub open spec fn well_formed_items(s: Seq<CleanupItem>) -> bool {
    forall|i: int|
        #![trigger s[i]]
        0 <= i < s.len() ==> s[i].size_bytes > 0 && s[i].id@ == s[i].kind@ + seq![':'] + s[i].path@
}

/// The warning attached to a `node_modules` candidate.
pub open spec fn node_modules_risk() -> Seq<char> {
    "Deleting node_modules requires reinstalling dependencies"@
}

// ---------------------------------------------------------------------------
// Building the list
// ---------------------------------------------------------------------------

/// Appends an item for `path` unless it would free nothing (`size_bytes == 0`).
/// The item's id is `"<kind>:<path>"`.
pub fn push_item(
    items: &mut Vec<CleanupItem>,
    kind: &str,
    path: String,
    size_bytes: u64,
    last_used_unix: u64,
    risk: &str,
    source: &str,
)
    ensures
        pushed(
            old(items)@,
            final(items)@,
            kind@,
            path@,
            size_bytes,
            last_used_unix,
            risk@,
            source@,
        ),
{
    if size_bytes == 0 {
        return ;
    }
    let mut id = String::from_str(kind);
    proof {
        reveal_strlit(":");
        assert(":"@ =~= seq![':']);
    }
    id.append(":");
    id.append(path.as_str());
    let item = CleanupItem {
        id,
        kind: String::from_str(kind),
        path,
        size_bytes,
        last_used_unix,
        risk: String::from_str(risk),
        source: String::from_str(source),
    };
    items.push(item);
    assert(final(items)@.drop_last() =~= old(items)@);
}

/// Appends the candidate for the `node_modules` directory at `path`, found
/// on the file system, unless it is empty.
pub fn push_node_modules_item(
    items: &mut Vec<CleanupItem>,
    path: String,
    size_bytes: u64,
    last_used_unix: u64,
)
    ensures
        pushed(
            old(items)@,
            final(items)@,
            "node_modules"@,
            path@,
            size_bytes,
            last_used_unix,
            node_modules_risk(),
            "filesystem"@,
        ),
{
    push_item(
        items,
        "node_modules",
        path,
        size_bytes,
        last_used_unix,
        "Deleting node_modules requires reinstalling dependencies",
        "filesystem",
    );
}

// ---------------------------------------------------------------------------
// Ordering
// ---------------------------------------------------------------------------

/// Whether `a` ranks strictly after `b`.
fn ranks_after(a: &CleanupItem, b: &CleanupItem, by: SortBy) -> (r: bool)
    ensures
        r == (rank(*a, by) > rank(*b, by)),
{
    match by {
        SortBy::Size => a.size_bytes < b.size_bytes,
        SortBy::LastUsed => a.last_used_unix > b.last_used_unix,
    }
}

/// Where `x` goes in the sorted `items` so that it follows every item of
/// equal or lower rank and precedes every item of higher rank.
fn insertion_point(items: &Vec<CleanupItem>, x: &CleanupItem, by: SortBy) -> (p: usize)
    requires
        sorted_by(items@, by),
    ensures
        p <= items@.len(),
        forall|i: int| 0 <= i < p ==> rank(#[trigger] items@[i], by) <= rank(*x, by),
        forall|i: int| p <= i < items@.len() ==> rank(#[trigger] items@[i], by) > rank(*x, by),
{
    let mut p = items.len();
    while p > 0 && ranks_after(&items[p - 1], x, by)
        invariant
            p <= items@.len(),
            sorted_by(items@, by),
            forall|i: int| p <= i < items@.len() ==> rank(#[trigger] items@[i], by) > rank(*x, by),
        decreases p,
    {
        p = p - 1;
    }
    if p > 0 {
        assert forall|i: int| 0 <= i < p implies rank(#[trigger] items@[i], by) <= rank(*x, by) by {
            if i < p - 1 {
                assert(rank(items@[i], by) <= rank(items@[p - 1], by));
            }
        }
    }
    p
}

/// The rank class of a concatenation is the concatenation of rank classes.
proof fn lemma_rank_class_add(a: Seq<CleanupItem>, b: Seq<CleanupItem>, by: SortBy, r: int)
    ensures
        rank_class(a + b, by, r) == rank_class(a, by, r) + rank_class(b, by, r),
{
    Seq::filter_distributes_over_add(a, b, has_rank(by, r));
}

/// No item of a sequence whose ranks all exceed `r` has rank `r`.
proof fn lemma_rank_class_empty(s: Seq<CleanupItem>, by: SortBy, r: int)
    requires
        forall|i: int| 0 <= i < s.len() ==> rank(#[trigger] s[i], by) > r,
    ensures
        rank_class(s, by, r) == Seq::<CleanupItem>::empty(),
    decreases s.len(),
{
    reveal(Seq::filter);
    if s.len() > 0 {
        lemma_rank_class_empty(s.drop_last(), by, r);
        assert(rank(s[s.len() - 1], by) > r);
    }
}

/// Inserting `x` between the items ranked at most `rank(x)` and those ranked
/// above it appends `x` to its own rank class and leaves every other class alone.
proof fn lemma_insert_rank_class(s: Seq<CleanupItem>, p: int, x: CleanupItem, by: SortBy, r: int)
    requires
        0 <= p <= s.len(),
        forall|i: int| p <= i < s.len() ==> rank(#[trigger] s[i], by) > rank(x, by),
    ensures
        rank_class(s.insert(p, x), by, r) == if rank(x, by) == r {
            rank_class(s, by, r).push(x)
        } else {
            rank_class(s, by, r)
        },
{
    let front = s.subrange(0, p);
    let back = s.subrange(p, s.len() as int);
    assert(s =~= front + back);
    lemma_rank_class_add(front, back, by, r);
    lemma_rank_class_add(front.push(x), back, by, r);
    front.lemma_filter_push(x, has_rank(by, r));
    if rank(x, by) == r {
        assert forall|i: int| 0 <= i < back.len() implies rank(#[trigger] back[i], by) > r by {
            assert(back[i] == s[p + i]);
        }
        lemma_rank_class_empty(back, by, r);
        assert(rank_class(front, by, r) + Seq::<CleanupItem>::empty() =~= rank_class(front, by, r));
        assert(rank_class(front, by, r).push(x) + Seq::<CleanupItem>::empty() =~= rank_class(
            front,
            by,
            r,
        ).push(x));
    }
}

/// Sorts `items` stably: by decreasing size for [`SortBy::Size`], by
/// increasing last-use time for [`SortBy::LastUsed`]; items that tie keep
/// their relative order.
pub fn sort_items(items: &mut Vec<CleanupItem>, by: SortBy)
    ensures
        stably_sorted(final(items)@, old(items)@, by),
        total_size(final(items)@) == total_size(old(items)@),
        by == SortBy::Size ==> forall|i: int, j: int|
            0 <= i < j < final(items)@.len() ==> #[trigger] final(items)@[i].size_bytes
                >= #[trigger] final(items)@[j].size_bytes,
        by == SortBy::LastUsed ==> forall|i: int, j: int|
            0 <= i < j < final(items)@.len() ==> #[trigger] final(items)@[i].last_used_unix
                <= #[trigger] final(items)@[j].last_used_unix,
{
    let mut rest: Vec<CleanupItem> = Vec::new();
    core::mem::swap(items, &mut rest);
    let ghost input = rest@;
    let ghost mut k: int = 0;
    assert(input.take(0) =~= Seq::<CleanupItem>::empty());
    assert(input.skip(0) =~= input);
    while rest.len() > 0
        invariant
            0 <= k <= input.len(),
            rest@ == input.skip(k),
            items@.len() == k,
            sorted_by(items@, by),
            forall|r: int| #[trigger] rank_class(items@, by, r) == rank_class(input.take(k), by, r),
            total_size(items@) == total_size(input.take(k)),
        decreases rest@.len(),
    {
        let x = rest.remove(0);
        assert(x == input[k]);
        let p = insertion_point(items, &x, by);
        let ghost before = items@;
        items.insert(p, x);
        proof {
            before.insert_ensures(p as int, x);
            lemma_total_insert(before, p as int, x);
            assert(input.take(k + 1).drop_last() =~= input.take(k));
            assert(input.take(k + 1) =~= input.take(k).push(x));
            assert(input.skip(k + 1) =~= input.skip(k).remove(0));
            assert forall|r: int| #[trigger] rank_class(items@, by, r) == rank_class(
                input.take(k + 1),
                by,
                r,
            ) by {
                lemma_insert_rank_class(before, p as int, x, by, r);
                input.take(k).lemma_filter_push(x, has_rank(by, r));
            }
            assert forall|i: int, j: int| 0 <= i < j < items@.len() implies rank(
                #[trigger] items@[i],
                by,
            ) <= rank(#[trigger] items@[j], by) by {
                if j < p {
                } else if j == p {
                } else if i < p {
                    assert(items@[j] == before[j - 1]);
                } else if i == p {
                    assert(items@[j] == before[j - 1]);
                } else {
                    assert(items@[i] == before[i - 1]);
                    assert(items@[j] == before[j - 1]);
                }
            }
            k = k + 1;
        }
    }
    assert(input.take(k) =~= input);
}

// ---------------------------------------------------------------------------
// Totals
// ---------------------------------------------------------------------------

/// The total of a concatenation is the sum of the totals.
pub proof fn lemma_total_add(a: Seq<CleanupItem>, b: Seq<CleanupItem>)
    ensures
        total_size(a + b) == total_size(a) + total_size(b),
    decreases b.len(),
{
    if b.len() > 0 {
        lemma_total_add(a, b.drop_last());
        assert((a + b).drop_last() =~= a + b.drop_last());
    } else {
        assert(a + b =~= a);
    }
}

/// Inserting an item adds its size to the total.
proof fn lemma_total_insert(s: Seq<CleanupItem>, p: int, x: CleanupItem)
    requires
        0 <= p <= s.len(),
    ensures
        total_size(s.insert(p, x)) == total_size(s) + x.size_bytes,
{
    let front = s.subrange(0, p);
    let back = s.subrange(p, s.len() as int);
    assert(s =~= front + back);
    lemma_total_add(front, back);
    lemma_total_add(front.push(x), back);
    assert(front.push(x).drop_last() =~= front);
}

/// Appending items never lowers the total.
proof fn lemma_total_grows(s: Seq<CleanupItem>, i: int, j: int)
    requires
        0 <= i <= j <= s.len(),
    ensures
        total_size(s.take(i)) <= total_size(s.take(j)),
    decreases j - i,
{
    if i < j {
        lemma_total_grows(s, i, j - 1);
        assert(s.take(j).drop_last() =~= s.take(j - 1));
    }
}

/// The sum of the sizes of `items`, or `None` when it does not fit in a `u64`.
pub fn total_bytes(items: &Vec<CleanupItem>) -> (r: Option<u64>)
    ensures
        r == (if total_size(items@) <= u64::MAX {
            Some(total_size(items@) as u64)
        } else {
            None::<u64>
        }),
{
    let mut sum: u64 = 0;
    let mut i: usize = 0;
    assert(items@.take(0) =~= Seq::<CleanupItem>::empty());
    while i < items.len()
        invariant
            i <= items@.len(),
            sum == total_size(items@.take(i as int)),
        decreases items.len() - i,
    {
        assert(items@.take(i + 1).drop_last() =~= items@.take(i as int));
        match sum.checked_add(items[i].size_bytes) {
            Some(next) => {
                sum = next;
            },
            None => {
                proof {
                    lemma_total_grows(items@, i + 1, items@.len() as int);
                    assert(items@.take(items@.len() as int) =~= items@);
                }
                return None;
            },
        }
        i = i + 1;
    }
    assert(items@.take(items@.len() as int) =~= items@);
    Some(sum)
}

} // verus!
