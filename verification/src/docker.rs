//! Docker: reading `docker system df` reports, choosing the Docker
//! candidates of a scan, and the prune command for each kind of candidate.
use vstd::prelude::*;
use crate::items::{describes, push_item};
use crate::laws::{law_report_table_keeps_last_reading, line_has_type};
use crate::model::{CleanupItem, DockerOptions};
use crate::patterns::texts;
use crate::size::{parse_human_size, reads_as};
use crate::text::{
    chars_of, lines_of, lines_spec, lowercase, prefix_before, prefix_before_char, string_from_chars,
    to_lowercase,
};

verus! {

// ---------------------------------------------------------------------------
// `docker system df --format '{{json .}}'` lines
// ---------------------------------------------------------------------------

/// What `serde_json` finds under `key` in the JSON text `text`: `None` when
/// `text` is not one JSON value, `Some(None)` when the value has no string
/// member `key`, `Some(Some(s))` when it has one, holding `s`.
pub uninterp spec fn json_string_member(text: Seq<char>, key: Seq<char>) -> Option<Option<Seq<char>>>;

/// The view of a nested optional string.
pub open spec fn nested_text(r: Option<Option<String>>) -> Option<Option<Seq<char>>> {
    match r {
        None => None,
        Some(None) => Some(None),
        Some(Some(s)) => Some(Some(s@)),
    }
}

/// Parses `text` with `serde_json::from_str::<serde_json::Value>` and reads
/// the string member `key` (`Value::get`, then `Value::as_str`). The contract
/// only names the answer ([`json_string_member`]); JSON syntax is not restated.
#[verifier::external_body]
fn json_str_member(text: &str, key: &str) -> (r: Option<Option<String>>)
    ensures
        nested_text(r) == json_string_member(text@, key@),
{
    match serde_json::from_str::<serde_json::Value>(text) {
        Ok(v) => Some(v.get(key).and_then(|x| x.as_str()).map(String::from)),
        Err(_) => None,
    }
}

/// One line of the Docker disk-usage report: the resource type, lower-cased,
/// and the reclaimable size text without its percentage.
#[derive(Debug)]
pub struct DfEntry {
    pub kind: String,
    pub reclaimable: String,
}

/// The entry a report line becomes, from the string members `Type` and
/// `Reclaimable` that the line holds; `None` when it is not JSON.
pub open spec fn df_entry_from(
    ty: Option<Option<Seq<char>>>,
    reclaimable: Option<Option<Seq<char>>>,
) -> Option<(Seq<char>, Seq<char>)> {
    match (ty, reclaimable) {
        (Some(t), Some(rc)) => Some(
            (
                lowercase(
                    match t {
                        Some(x) => x,
                        None => Seq::empty(),
                    },
                ),
                prefix_before(
                    match rc {
                        Some(x) => x,
                        None => Seq::empty(),
                    },
                    '(',
                ),
            ),
        ),
        _ => None,
    }
}

/// The entry a report line becomes.
pub open spec fn df_entry_spec(line: Seq<char>) -> Option<(Seq<char>, Seq<char>)> {
    df_entry_from(
        json_string_member(line, "Type"@),
        json_string_member(line, "Reclaimable"@),
    )
}

/// The view of an optional entry.
pub open spec fn entry_view(e: Option<DfEntry>) -> Option<(Seq<char>, Seq<char>)> {
    match e {
        None => None,
        Some(x) => Some((x.kind@, x.reclaimable@)),
    }
}

/// The entry built from the members `Type` and `Reclaimable` of a report line:
/// the type lower-cased (empty when missing), the reclaimable text up to its
/// first `(` (empty when missing); `None` when the line was not JSON.
pub fn df_entry_of(ty: Option<Option<String>>, reclaimable: Option<Option<String>>) -> (r: Option<
    DfEntry,
>)
    ensures
        entry_view(r) == df_entry_from(nested_text(ty), nested_text(reclaimable)),
{
    match (ty, reclaimable) {
        (Some(t), Some(rc)) => {
            let t_text = match t {
                Some(x) => x,
                None => String::new(),
            };
            let rc_text = match rc {
                Some(x) => x,
                None => String::new(),
            };
            let kind = to_lowercase(t_text.as_str());
            let rc_chars = chars_of(rc_text.as_str());
            let amount = prefix_before_char(rc_chars.as_slice(), '(');
            Some(DfEntry { kind, reclaimable: string_from_chars(amount.as_slice()) })
        },
        _ => None,
    }
}

/// Reads one line of `docker system df --format '{{json .}}'`: `None` when
/// it is not JSON, else its lower-cased `Type` and its `Reclaimable` text
/// before the first `(` (missing members read as empty).
pub fn df_entry(line: &str) -> (r: Option<DfEntry>)
    ensures
        entry_view(r) == df_entry_spec(line@),
{
    let ty = json_str_member(line, "Type");
    let rc = json_str_member(line, "Reclaimable");
    df_entry_of(ty, rc)
}

// ---------------------------------------------------------------------------
// The reclaimable bytes of each resource type
// ---------------------------------------------------------------------------

/// The map that recording `entries` in order produces: a later entry for a
/// type replaces an earlier one.
pub open spec fn table_map(entries: Seq<(String, u64)>) -> Map<Seq<char>, u64>
    decreases entries.len(),
{
    if entries.len() == 0 {
        Map::empty()
    } else {
        table_map(entries.drop_last()).insert(entries.last().0@, entries.last().1)
    }
}

/// Reclaimable bytes by Docker resource type (`images`, `containers`,
/// `local volumes`, `build cache`, ...).
#[derive(Debug)]
pub struct ReclaimTable {
    entries: Vec<(String, u64)>,
}

impl View for ReclaimTable {
    type V = Map<Seq<char>, u64>;

    closed spec fn view(&self) -> Map<Seq<char>, u64> {
        table_map(self.entries@)
    }
}

/// The bytes `m` records for `kind`, 0 when it has none.
pub open spec fn bytes_for(m: Map<Seq<char>, u64>, kind: Seq<char>) -> u64 {
    if m.contains_key(kind) {
        m[kind]
    } else {
        0
    }
}

impl ReclaimTable {
    /// A table that records nothing.
    pub fn new() -> (r: Self)
        ensures
            r@ == Map::<Seq<char>, u64>::empty(),
    {
        ReclaimTable { entries: Vec::new() }
    }

    /// Records `bytes` for `kind`, replacing what was recorded for it; a
    /// report line without a type is not recorded.
    pub fn record(&mut self, kind: String, bytes: u64)
        ensures
            final(self)@ == if kind@.len() == 0 {
                old(self)@
            } else {
                old(self)@.insert(kind@, bytes)
            },
    {
        if kind.as_str().is_empty() {
            return ;
        }
        self.entries.push((kind, bytes));
        assert(self.entries@.drop_last() =~= old(self).entries@);
    }

    /// The bytes recorded for `kind`, 0 when none are.
    pub fn get(&self, kind: &str) -> (r: u64)
        ensures
            r == bytes_for(self@, kind@),
    {
        let key = String::from_str(kind);
        let mut i = self.entries.len();
        while i > 0
            invariant
                i <= self.entries@.len(),
                key@ == kind@,
                forall|j: int| i <= j < self.entries@.len() ==> (#[trigger] self.entries@[j]).0@
                    != kind@,
            decreases i,
        {
            if self.entries[i - 1].0 == key {
                proof {
                    lemma_table_last_match(self.entries@, i - 1, kind@);
                }
                return self.entries[i - 1].1;
            }
            i = i - 1;
        }
        proof {
            lemma_table_no_match(self.entries@, kind@);
        }
        0
    }
}

/// The last entry for `k` decides what the table maps `k` to.
proof fn lemma_table_last_match(entries: Seq<(String, u64)>, i: int, k: Seq<char>)
    requires
        0 <= i < entries.len(),
        entries[i].0@ == k,
        forall|j: int| i < j < entries.len() ==> (#[trigger] entries[j]).0@ != k,
    ensures
        table_map(entries).contains_key(k),
        table_map(entries)[k] == entries[i].1,
    decreases entries.len(),
{
    if i < entries.len() - 1 {
        lemma_table_last_match(entries.drop_last(), i, k);
        assert(entries.last() == entries[entries.len() - 1]);
    }
}

/// A type without entries is not in the table.
proof fn lemma_table_no_match(entries: Seq<(String, u64)>, k: Seq<char>)
    requires
        forall|j: int| 0 <= j < entries.len() ==> (#[trigger] entries[j]).0@ != k,
    ensures
        !table_map(entries).contains_key(k),
    decreases entries.len(),
{
    if entries.len() > 0 {
        lemma_table_no_match(entries.drop_last(), k);
        assert(entries.last() == entries[entries.len() - 1]);
    }
}

// ---------------------------------------------------------------------------
// Whole reports
// ---------------------------------------------------------------------------

/// The sum of `sizes`.
pub open spec fn sum_sizes(sizes: Seq<u64>) -> nat
    decreases sizes.len(),
{
    if sizes.len() == 0 {
        0
    } else {
        (sum_sizes(sizes.drop_last()) + sizes.last()) as nat
    }
}

/// `sizes[i]` is a size that `lines[i]` reads as, with `scale`.
pub open spec fn line_sizes<F: Fn(&str, u64) -> Option<u64>>(
    scale: F,
    lines: Seq<Seq<char>>,
    sizes: Seq<u64>,
) -> bool {
    &&& sizes.len() == lines.len()
    &&& forall|i: int| #![trigger sizes[i]] 0 <= i < sizes.len() ==> reads_as(scale, lines[i], sizes[i])
}

/// The total of the dangling image sizes that `docker image ls --format
/// '{{.Size}}'` printed as `stdout`, one size per line; `None` when the total
/// does not fit in a `u64`.
pub fn dangling_total<F: Fn(&str, u64) -> Option<u64>>(stdout: &str, scale: &F) -> (r: Option<u64>)
    requires
        forall|n: &str, m: u64| call_requires(*scale, (n, m)),
    ensures
        exists|sizes: Seq<u64>|
            #[trigger] line_sizes(*scale, lines_spec(stdout@), sizes) && r == if sum_sizes(sizes)
                <= u64::MAX {
                Some(sum_sizes(sizes) as u64)
            } else {
                None::<u64>
            },
{
    let lines = lines_of(stdout);
    let ghost ls = lines_spec(stdout@);
    let mut total: Option<u64> = Some(0);
    let ghost mut sizes: Seq<u64> = Seq::empty();
    let mut i: usize = 0;
    while i < lines.len()
        invariant
            i <= lines@.len(),
            lines@.map_values(|l: String| l@) == ls,
            forall|n: &str, m: u64| call_requires(*scale, (n, m)),
            line_sizes(*scale, ls.take(i as int), sizes),
            total == if sum_sizes(sizes) <= u64::MAX {
                Some(sum_sizes(sizes) as u64)
            } else {
                None::<u64>
            },
        decreases lines.len() - i,
    {
        assert(ls[i as int] == lines@[i as int]@);
        let bytes = parse_human_size(lines[i].as_str(), scale);
        total = match total {
            Some(t) => t.checked_add(bytes),
            None => None,
        };
        proof {
            let prev = sizes;
            sizes = sizes.push(bytes);
            assert(sizes.drop_last() =~= prev);
            assert(sum_sizes(sizes) == sum_sizes(prev) + bytes);
            let next = ls.take(i + 1);
            assert forall|k: int| 0 <= k < sizes.len() implies reads_as(
                *scale,
                next[k],
                #[trigger] sizes[k],
            ) by {
                if k < i {
                    assert(prev[k] == sizes[k]);
                    assert(ls.take(i as int)[k] == next[k]);
                }
            }
        }
        i = i + 1;
    }
    assert(ls.take(lines@.len() as int) =~= ls);
    total
}

/// What the table holds after the report `lines` are recorded in order, the
/// reclaimable text of the `i`-th line read as `sizes[i]`: lines that are not
/// JSON, or have no type, are skipped, and a later line for a type replaces
/// an earlier one.
pub open spec fn table_after(lines: Seq<Seq<char>>, sizes: Seq<u64>) -> Map<Seq<char>, u64>
    decreases lines.len(),
{
    if lines.len() == 0 {
        Map::empty()
    } else {
        let prev = table_after(lines.drop_last(), sizes.drop_last());
        match df_entry_spec(lines.last()) {
            Some(e) => if e.0.len() > 0 {
                prev.insert(e.0, sizes.last())
            } else {
                prev
            },
            None => prev,
        }
    }
}

/// `sizes[i]` is a size that the reclaimable text of the `i`-th report line
/// reads as, with `scale` (any value for a line that is not JSON).
pub open spec fn report_sizes<F: Fn(&str, u64) -> Option<u64>>(
    scale: F,
    lines: Seq<Seq<char>>,
    sizes: Seq<u64>,
) -> bool {
    &&& sizes.len() == lines.len()
    &&& forall|i: int|
        #![trigger sizes[i]]
        0 <= i < sizes.len() ==> match df_entry_spec(lines[i]) {
            Some(e) => reads_as(scale, e.1, sizes[i]),
            None => true,
        }
}

/// The reclaimable bytes by resource type that `docker system df --format
/// '{{json .}}'` printed as `stdout`, one JSON object per line.
pub fn reclaim_table<F: Fn(&str, u64) -> Option<u64>>(stdout: &str, scale: &F) -> (r: ReclaimTable)
    requires
        forall|n: &str, m: u64| call_requires(*scale, (n, m)),
    ensures
        exists|sizes: Seq<u64>|
            #[trigger] report_sizes(*scale, lines_spec(stdout@), sizes) && r@ == table_after(
                lines_spec(stdout@),
                sizes,
            ),
        forall|k: int|
            0 <= k < lines_spec(stdout@).len() ==> match df_entry_spec(
                #[trigger] lines_spec(stdout@)[k],
            ) {
                Some(e) => e.0.len() > 0 ==> r@.contains_key(e.0),
                None => true,
            },
        forall|key: Seq<char>|
            #[trigger] r@.contains_key(key) ==> key.len() > 0 && exists|k: int|
                0 <= k < lines_spec(stdout@).len() && line_has_type(
                    #[trigger] lines_spec(stdout@)[k],
                    key,
                ),
{
    let lines = lines_of(stdout);
    let ghost ls = lines_spec(stdout@);
    let mut table = ReclaimTable::new();
    let ghost mut sizes: Seq<u64> = Seq::empty();
    let mut i: usize = 0;
    while i < lines.len()
        invariant
            i <= lines@.len(),
            lines@.map_values(|l: String| l@) == ls,
            forall|n: &str, m: u64| call_requires(*scale, (n, m)),
            report_sizes(*scale, ls.take(i as int), sizes),
            table@ == table_after(ls.take(i as int), sizes),
        decreases lines.len() - i,
    {
        assert(ls[i as int] == lines@[i as int]@);
        let ghost prev = sizes;
        match df_entry(lines[i].as_str()) {
            Some(entry) => {
                let bytes = parse_human_size(entry.reclaimable.as_str(), scale);
                table.record(entry.kind, bytes);
                proof {
                    sizes = sizes.push(bytes);
                }
            },
            None => {
                proof {
                    sizes = sizes.push(0);
                }
            },
        }
        proof {
            assert(sizes.drop_last() =~= prev);
            assert(ls.take(i + 1) =~= ls.take(i as int).push(ls[i as int]));
            assert(ls.take(i + 1).drop_last() =~= ls.take(i as int));
        }
        i = i + 1;
    }
    assert(ls.take(lines@.len() as int) =~= ls);
    proof {
        assert forall|k: int| 0 <= k < ls.len() implies match df_entry_spec(#[trigger] ls[k]) {
            Some(e) => e.0.len() > 0 ==> table@.contains_key(e.0),
            None => true,
        } by {
            if let Some(e) = df_entry_spec(ls[k]) {
                if e.0.len() > 0 {
                    law_report_table_keeps_last_reading(ls, sizes, e.0);
                    assert(line_has_type(ls[k], e.0));
                }
            }
        }
        assert forall|key: Seq<char>| #[trigger] table@.contains_key(key) implies key.len() > 0
            && exists|k: int| 0 <= k < ls.len() && line_has_type(#[trigger] ls[k], key) by {
            assert(table@ == table_after(ls, sizes));
            law_report_table_keeps_last_reading(ls, sizes, key);
            if key.len() == 0 {
                assert(key =~= Seq::<char>::empty());
            }
        }
    }
    table
}

// ---------------------------------------------------------------------------
// Docker candidates of a scan
// ---------------------------------------------------------------------------

/// A Docker candidate: kind, path, reclaimable bytes and risk note.
pub type Candidate = (Seq<char>, Seq<char>, u64, Seq<char>);

/// `c` when `enabled`, nothing otherwise.
pub open spec fn when(enabled: bool, c: Candidate) -> Seq<Candidate> {
    if enabled {
        seq![c]
    } else {
        Seq::empty()
    }
}

/// The Docker candidates selected by `opts`, in order, with the dangling-image
/// bytes `dangling` and the other sizes taken from the disk-usage table `df`.
pub open spec fn docker_candidates(opts: DockerOptions, dangling: u64, df: Map<Seq<char>, u64>) -> Seq<
    Candidate,
> {
    when(
        opts.dangling_images,
        (
            "docker_dangling_images"@,
            "docker://dangling_images"@,
            dangling,
            "Dangling image cleanup is usually safe"@,
        ),
    ) + when(
        opts.unused_images,
        (
            "docker_unused_images"@,
            "docker://unused_images"@,
            bytes_for(df, "images"@),
            "Unused images may be pulled again later"@,
        ),
    ) + when(
        opts.stopped_containers,
        (
            "docker_stopped_containers"@,
            "docker://stopped_containers"@,
            bytes_for(df, "containers"@),
            "Stopped containers may include useful debug state"@,
        ),
    ) + when(
        opts.build_cache,
        (
            "docker_build_cache"@,
            "docker://build_cache"@,
            bytes_for(df, "build cache"@),
            "Build cache cleanup increases next build duration"@,
        ),
    ) + when(
        opts.volumes,
        (
            "docker_volumes"@,
            "docker://volumes"@,
            bytes_for(df, "local volumes"@),
            "Volume cleanup may remove persisted data"@,
        ),
    )
}

/// The test "frees something".
pub open spec fn frees_space() -> spec_fn(Candidate) -> bool {
    |c: Candidate| c.2 != 0
}

/// `new` is `old` followed by one item for each candidate of `cands` that
/// frees something, in order, with source `docker` and no last-use time.
pub open spec fn appends_candidates(
    old: Seq<CleanupItem>,
    new: Seq<CleanupItem>,
    cands: Seq<Candidate>,
) -> bool {
    let kept = cands.filter(frees_space());
    &&& new.len() == old.len() + kept.len()
    &&& new.take(old.len() as int) == old
    &&& forall|i: int|
        0 <= i < kept.len() ==> describes(
            #[trigger] new[old.len() + i],
            kept[i].0,
            kept[i].1,
            kept[i].2,
            0,
            kept[i].3,
            "docker"@,
        )
}

/// Appending in two steps appends the concatenated candidates.
proof fn lemma_appends_chain(
    a: Seq<CleanupItem>,
    b: Seq<CleanupItem>,
    c: Seq<CleanupItem>,
    x: Seq<Candidate>,
    y: Seq<Candidate>,
)
    requires
        appends_candidates(a, b, x),
        appends_candidates(b, c, y),
    ensures
        appends_candidates(a, c, x + y),
{
    Seq::filter_distributes_over_add(x, y, frees_space());
    let kx = x.filter(frees_space());
    let ky = y.filter(frees_space());
    assert(c.take(a.len() as int) =~= a) by {
        assert(c.take(b.len() as int).take(a.len() as int) =~= c.take(a.len() as int));
    }
    assert forall|i: int| 0 <= i < (kx + ky).len() implies describes(
        #[trigger] c[a.len() + i],
        (kx + ky)[i].0,
        (kx + ky)[i].1,
        (kx + ky)[i].2,
        0,
        (kx + ky)[i].3,
        "docker"@,
    ) by {
        if i < kx.len() {
            assert(c[a.len() + i] == c.take(b.len() as int)[a.len() + i]);
            assert(b[a.len() + i] == c[a.len() + i]);
        } else {
            let k = i - kx.len();
            assert(c[b.len() + k] == c[a.len() + i]);
        }
    }
}

/// Appends the item for one candidate when it is selected and frees something.
fn push_candidate(
    items: &mut Vec<CleanupItem>,
    enabled: bool,
    kind: &str,
    path: &str,
    size_bytes: u64,
    risk: &str,
)
    ensures
        appends_candidates(
            old(items)@,
            final(items)@,
            when(enabled, (kind@, path@, size_bytes, risk@)),
        ),
{
    let ghost cands = when(enabled, (kind@, path@, size_bytes, risk@));
    reveal_with_fuel(Seq::filter, 2);
    if enabled {
        push_item(items, kind, String::from_str(path), size_bytes, 0, risk, "docker");
        assert(cands.filter(frees_space()) =~= if size_bytes != 0 {
            cands
        } else {
            Seq::<Candidate>::empty()
        });
        if size_bytes != 0 {
            assert(final(items)@.take(old(items)@.len() as int) =~= final(items)@.drop_last());
            assert(final(items)@[old(items)@.len() as int + 0] == final(items)@.last());
        } else {
            assert(final(items)@.take(old(items)@.len() as int) =~= old(items)@);
        }
    } else {
        assert(cands.filter(frees_space()) =~= Seq::<Candidate>::empty());
        assert(items@.take(old(items)@.len() as int) =~= old(items)@);
    }
}

/// Appends the Docker candidates selected by `opts`, each only when it frees
/// something: dangling images (`dangling` bytes), unused images, stopped
/// containers, build cache and local volumes (sizes from `df`).
pub fn push_docker_items(
    items: &mut Vec<CleanupItem>,
    opts: &DockerOptions,
    dangling: u64,
    df: &ReclaimTable,
)
    ensures
        appends_candidates(old(items)@, final(items)@, docker_candidates(*opts, dangling, df@)),
{
    let ghost s0 = items@;
    push_candidate(
        items,
        opts.dangling_images,
        "docker_dangling_images",
        "docker://dangling_images",
        dangling,
        "Dangling image cleanup is usually safe",
    );
    let ghost s1 = items@;
    push_candidate(
        items,
        opts.unused_images,
        "docker_unused_images",
        "docker://unused_images",
        df.get("images"),
        "Unused images may be pulled again later",
    );
    let ghost s2 = items@;
    push_candidate(
        items,
        opts.stopped_containers,
        "docker_stopped_containers",
        "docker://stopped_containers",
        df.get("containers"),
        "Stopped containers may include useful debug state",
    );
    let ghost s3 = items@;
    push_candidate(
        items,
        opts.build_cache,
        "docker_build_cache",
        "docker://build_cache",
        df.get("build cache"),
        "Build cache cleanup increases next build duration",
    );
    let ghost s4 = items@;
    push_candidate(
        items,
        opts.volumes,
        "docker_volumes",
        "docker://volumes",
        df.get("local volumes"),
        "Volume cleanup may remove persisted data",
    );
    proof {
        let c = docker_candidates(*opts, dangling, df@);
        let w1 = when(
            opts.dangling_images,
            (
                "docker_dangling_images"@,
                "docker://dangling_images"@,
                dangling,
                "Dangling image cleanup is usually safe"@,
            ),
        );
        let w2 = when(
            opts.unused_images,
            (
                "docker_unused_images"@,
                "docker://unused_images"@,
                bytes_for(df@, "images"@),
                "Unused images may be pulled again later"@,
            ),
        );
        let w3 = when(
            opts.stopped_containers,
            (
                "docker_stopped_containers"@,
                "docker://stopped_containers"@,
                bytes_for(df@, "containers"@),
                "Stopped containers may include useful debug state"@,
            ),
        );
        let w4 = when(
            opts.build_cache,
            (
                "docker_build_cache"@,
                "docker://build_cache"@,
                bytes_for(df@, "build cache"@),
                "Build cache cleanup increases next build duration"@,
            ),
        );
        let w5 = when(
            opts.volumes,
            (
                "docker_volumes"@,
                "docker://volumes"@,
                bytes_for(df@, "local volumes"@),
                "Volume cleanup may remove persisted data"@,
            ),
        );
        lemma_appends_chain(s0, s1, s2, w1, w2);
        lemma_appends_chain(s0, s2, s3, w1 + w2, w3);
        lemma_appends_chain(s0, s3, s4, w1 + w2 + w3, w4);
        lemma_appends_chain(s0, s4, items@, w1 + w2 + w3 + w4, w5);
    }
}

// ---------------------------------------------------------------------------
// Prune commands
// ---------------------------------------------------------------------------

/// The `docker` arguments that clean up a candidate of `kind`, or `None` for
/// a kind that is not a Docker one.
pub open spec fn prune_args(kind: Seq<char>) -> Option<Seq<Seq<char>>> {
    if kind == "docker_dangling_images"@ {
        Some(seq!["image"@, "prune"@, "-f"@])
    } else if kind == "docker_unused_images"@ {
        Some(seq!["image"@, "prune"@, "-a"@, "-f"@])
    } else if kind == "docker_stopped_containers"@ {
        Some(seq!["container"@, "prune"@, "-f"@])
    } else if kind == "docker_build_cache"@ {
        Some(seq!["builder"@, "prune"@, "-f"@])
    } else if kind == "docker_volumes"@ {
        Some(seq!["volume"@, "prune"@, "-f"@])
    } else {
        None
    }
}

/// The message for a kind without a prune command.
pub open spec fn unsupported_kind_message(kind: Seq<char>) -> Seq<char> {
    "Unsupported docker cleanup kind: "@ + kind
}

/// Strings for each of `words`.
fn strings(words: &[&str]) -> (r: Vec<String>)
    ensures
        texts(r@) == words@.map_values(|w: &str| w@),
{
    let mut out: Vec<String> = Vec::new();
    let mut i: usize = 0;
    while i < words.len()
        invariant
            i <= words@.len(),
            texts(out@) == words@.map_values(|w: &str| w@).take(i as int),
        decreases words.len() - i,
    {
        let ghost before = out@;
        out.push(String::from_str(words[i]));
        assert(texts(out@) =~= texts(before).push(words@[i as int]@));
        assert(words@.map_values(|w: &str| w@).take(i + 1) =~= words@.map_values(|w: &str| w@).take(
            i as int,
        ).push(words@[i as int]@));
        i = i + 1;
    }
    assert(words@.map_values(|w: &str| w@).take(words@.len() as int) =~= words@.map_values(
        |w: &str| w@,
    ));
    out
}

/// Whether `a` and `b` hold the same text.
fn same_text(a: &str, b: &str) -> (r: bool)
    ensures
        r == (a@ == b@),
{
    String::from_str(a) == String::from_str(b)
}

/// The `docker` arguments that prune the resources of a candidate of `kind`,
/// or the error message for a kind that has none.
pub fn docker_prune_args(kind: &str) -> (r: Result<Vec<String>, String>)
    ensures
        match r {
            Ok(args) => prune_args(kind@) == Some(texts(args@)),
            Err(msg) => prune_args(kind@) is None && msg@ == unsupported_kind_message(kind@),
        },
{
    let words: Vec<&str> = if same_text(kind, "docker_dangling_images") {
        vec!["image", "prune", "-f"]
    } else if same_text(kind, "docker_unused_images") {
        vec!["image", "prune", "-a", "-f"]
    } else if same_text(kind, "docker_stopped_containers") {
        vec!["container", "prune", "-f"]
    } else if same_text(kind, "docker_build_cache") {
        vec!["builder", "prune", "-f"]
    } else if same_text(kind, "docker_volumes") {
        vec!["volume", "prune", "-f"]
    } else {
        let mut msg = String::from_str("Unsupported docker cleanup kind: ");
        msg.append(kind);
        return Err(msg);
    };
    let args = strings(words.as_slice());
    assert(texts(args@) =~= prune_args(kind@).unwrap());
    Ok(args)
}

} // verus!
