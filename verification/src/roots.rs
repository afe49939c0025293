//! Where a scan starts, and which package-manager caches it inspects.
use vstd::prelude::*;
use crate::items::{push_item, pushed};
use crate::model::{CleanupItem, TargetOs};
use crate::patterns::texts;
use crate::text::string_from_chars;

verus! {

/// The root of drive `letter` as a scan names it: the letter, a colon and two
/// backslashes.
pub open spec fn drive_root(letter: char) -> Seq<char> {
    seq![letter, ':', '\\', '\\']
}

/// The places a full scan starts from on `os`: every drive root `A` to `Z` on
/// Windows (of which only the existing ones are scanned), `/` elsewhere.
pub open spec fn default_roots(os: TargetOs) -> Seq<Seq<char>> {
    match os {
        TargetOs::Windows => Seq::new(26, |i: int| drive_root((65 + i) as char)),
        TargetOs::Unix => seq![seq!['/']],
    }
}

/// The places a full scan starts from on `os`: the candidate roots of the 26
/// drives `A:` to `Z:` on Windows, `/` elsewhere.
pub fn default_scan_roots(os: TargetOs) -> (r: Vec<String>)
    ensures
        texts(r@) == default_roots(os),
{
    let mut out: Vec<String> = Vec::new();
    match os {
        TargetOs::Windows => {
            let mut i: u8 = 0;
            while i < 26
                invariant
                    i <= 26,
                    texts(out@) == Seq::new(i as nat, |k: int| drive_root((65 + k) as char)),
                decreases 26 - i,
            {
                let letter = (65u8 + i) as char;
                let root = vec![letter, ':', '\\', '\\'];
                let s = string_from_chars(root.as_slice());
                let ghost before = out@;
                out.push(s);
                assert(texts(out@) =~= texts(before).push(s@));
                assert(texts(out@) =~= Seq::new((i + 1) as nat, |k: int| drive_root((65 + k) as char)));
                i = i + 1;
            }
        },
        TargetOs::Unix => {
            let root = vec!['/'];
            let s = string_from_chars(root.as_slice());
            out.push(s);
            assert(texts(out@) =~= seq![s@]);
            assert(s@ =~= seq!['/']);
        },
    }
    out
}

/// The roots a scan starts from: the requested paths, or the default roots
/// of `os` when none were requested. (The caller scans only those that exist.)
pub fn scan_root_candidates(scan_paths: &Vec<String>, os: TargetOs) -> (r: Vec<String>)
    ensures
        texts(r@) == if scan_paths@.len() == 0 {
            default_roots(os)
        } else {
            texts(scan_paths@)
        },
{
    if scan_paths.len() == 0 {
        return default_scan_roots(os);
    }
    let mut out: Vec<String> = Vec::new();
    let mut i: usize = 0;
    while i < scan_paths.len()
        invariant
            i <= scan_paths@.len(),
            texts(out@) == texts(scan_paths@).take(i as int),
        decreases scan_paths.len() - i,
    {
        let ghost before = out@;
        out.push(scan_paths[i].clone());
        assert(texts(out@) =~= texts(before).push(scan_paths@[i as int]@));
        assert(texts(scan_paths@).take(i + 1) =~= texts(scan_paths@).take(i as int).push(
            scan_paths@[i as int]@,
        ));
        i = i + 1;
    }
    assert(texts(scan_paths@).take(scan_paths@.len() as int) =~= texts(scan_paths@));
    out
}

// ---------------------------------------------------------------------------
// Package-manager caches
// ---------------------------------------------------------------------------

/// `std::path::PathBuf`, a path as the operating system gives it (it need
/// not be valid Unicode). The library only carries such paths.
#[verifier::external_type_specification]
#[verifier::external_body]
pub struct ExPathBuf(std::path::PathBuf);

/// `PathBuf::clone` gives the same path.
pub assume_specification[ <std::path::PathBuf as Clone>::clone ](p: &std::path::PathBuf) -> (res:
    std::path::PathBuf)
    ensures
        res == *p,
;

/// The directory a cache lies under.
#[derive(Debug)]
pub enum CacheBase {
    /// A directory given as text (an application-data directory on Windows).
    Dir(String),
    /// The current user's home directory, as the operating system gives it.
    Home(std::path::PathBuf),
}

/// A package-manager cache directory: `base` joined with each of `parts`.
#[derive(Debug)]
pub struct CacheDir {
    pub kind: String,
    pub base: CacheBase,
    pub parts: Vec<String>,
    pub risk: String,
}

/// Where a cache lies: under a directory given as text, or under a home directory.
pub type Placement = (Seq<char>, Option<Seq<char>>, Option<std::path::PathBuf>, Seq<Seq<char>>);

/// The warning attached to every cache.
pub open spec fn cache_risk() -> Seq<char> {
    "Clearing cache may slow next package install"@
}

/// The text of a base given as text.
pub open spec fn base_dir(b: CacheBase) -> Option<Seq<char>> {
    match b {
        CacheBase::Dir(d) => Some(d@),
        CacheBase::Home(_) => None,
    }
}

/// The home directory of a base that is one.
pub open spec fn base_home(b: CacheBase) -> Option<std::path::PathBuf> {
    match b {
        CacheBase::Dir(_) => None,
        CacheBase::Home(h) => Some(h),
    }
}

/// The kind, base and relative parts of a cache directory.
pub open spec fn placement(d: CacheDir) -> Placement {
    (d.kind@, base_dir(d.base), base_home(d.base), texts(d.parts@))
}

/// The kinds, bases and relative parts of a list of cache directories, in order.
pub open spec fn placements(ds: Seq<CacheDir>) -> Seq<Placement> {
    ds.map_values(|d: CacheDir| placement(d))
}

/// Every directory of `ds` carries the cache warning.
pub open spec fn all_cache_risk(ds: Seq<CacheDir>) -> bool {
    forall|i: int| 0 <= i < ds.len() ==> (#[trigger] ds[i]).risk@ == cache_risk()
}

/// The caches looked for under a Unix home directory, in order.
pub open spec fn home_layout(home: Option<std::path::PathBuf>) -> Seq<Placement> {
    match home {
        None => Seq::empty(),
        Some(h) => seq![
            ("npm_cache"@, None, Some(h), seq![".npm"@]),
            ("pnpm_cache"@, None, Some(h), seq![".pnpm-store"@]),
            ("pnpm_cache"@, None, Some(h), seq!["Library"@, "Caches"@, "pnpm"@]),
            ("yarn_cache"@, None, Some(h), seq!["Library"@, "Caches"@, "Yarn"@]),
            ("yarn_cache"@, None, Some(h), seq![".yarn"@, "cache"@]),
        ],
    }
}

/// The caches looked for on Windows under the local and the roaming
/// application-data directories, in order.
pub open spec fn windows_layout(
    local_app_data: Option<Seq<char>>,
    app_data: Option<Seq<char>>,
) -> Seq<Placement> {
    let local = match local_app_data {
        None => Seq::empty(),
        Some(d) => seq![
            ("npm_cache"@, Some(d), None, seq!["npm-cache"@]),
            ("pnpm_cache"@, Some(d), None, seq!["pnpm"@, "store"@]),
            ("yarn_cache"@, Some(d), None, seq!["Yarn"@, "Cache"@]),
        ],
    };
    let roaming = match app_data {
        None => Seq::empty(),
        Some(d) => seq![("npm_cache"@, Some(d), None, seq!["npm-cache"@])],
    };
    local + roaming
}

/// The view of an optional string.
pub open spec fn opt_text(s: Option<String>) -> Option<Seq<char>> {
    match s {
        None => None,
        Some(t) => Some(t@),
    }
}

/// Appends the cache entry for `base` joined with `parts`.
fn push_cache(out: &mut Vec<CacheDir>, kind: &str, base: CacheBase, parts: Vec<String>)
    ensures
        placements(final(out)@) == placements(old(out)@).push(
            (kind@, base_dir(base), base_home(base), texts(parts@)),
        ),
        all_cache_risk(old(out)@) ==> all_cache_risk(final(out)@),
{
    let d = CacheDir {
        kind: String::from_str(kind),
        base,
        parts,
        risk: String::from_str("Clearing cache may slow next package install"),
    };
    out.push(d);
    assert(placements(final(out)@) =~= placements(old(out)@).push(placement(d)));
}

/// The strings `a`.
fn one(a: &str) -> (r: Vec<String>)
    ensures
        texts(r@) == seq![a@],
{
    let r = vec![String::from_str(a)];
    assert(texts(r@) =~= seq![a@]);
    r
}

/// The strings `a`, `b`.
fn two(a: &str, b: &str) -> (r: Vec<String>)
    ensures
        texts(r@) == seq![a@, b@],
{
    let r = vec![String::from_str(a), String::from_str(b)];
    assert(texts(r@) =~= seq![a@, b@]);
    r
}

/// The strings `a`, `b`, `c`.
fn three(a: &str, b: &str, c: &str) -> (r: Vec<String>)
    ensures
        texts(r@) == seq![a@, b@, c@],
{
    let r = vec![String::from_str(a), String::from_str(b), String::from_str(c)];
    assert(texts(r@) =~= seq![a@, b@, c@]);
    r
}

/// Calls `dirs::home_dir`, the current user's home directory, as the
/// operating system gives it. Nothing is promised of the answer: it depends
/// on the environment and the user database.
#[verifier::external_body]
fn home_dir() -> (r: Option<std::path::PathBuf>) {
    dirs::home_dir()
}

/// The package-manager caches under a Unix home directory (none without one).
pub fn home_cache_dirs(home: Option<std::path::PathBuf>) -> (r: Vec<CacheDir>)
    ensures
        placements(r@) == home_layout(home),
        all_cache_risk(r@),
{
    let mut out: Vec<CacheDir> = Vec::new();
    if let Some(h) = &home {
        push_cache(&mut out, "npm_cache", CacheBase::Home(h.clone()), one(".npm"));
        push_cache(&mut out, "pnpm_cache", CacheBase::Home(h.clone()), one(".pnpm-store"));
        push_cache(
            &mut out,
            "pnpm_cache",
            CacheBase::Home(h.clone()),
            three("Library", "Caches", "pnpm"),
        );
        push_cache(
            &mut out,
            "yarn_cache",
            CacheBase::Home(h.clone()),
            three("Library", "Caches", "Yarn"),
        );
        push_cache(&mut out, "yarn_cache", CacheBase::Home(h.clone()), two(".yarn", "cache"));
    }
    assert(placements(out@) =~= home_layout(home));
    out
}

/// The package-manager caches on Windows under the local (`%LOCALAPPDATA%`)
/// and roaming (`%APPDATA%`) application-data directories.
pub fn windows_cache_dirs(local_app_data: Option<String>, app_data: Option<String>) -> (r: Vec<
    CacheDir,
>)
    ensures
        placements(r@) == windows_layout(opt_text(local_app_data), opt_text(app_data)),
        all_cache_risk(r@),
{
    let mut out: Vec<CacheDir> = Vec::new();
    if let Some(d) = &local_app_data {
        push_cache(&mut out, "npm_cache", CacheBase::Dir(d.clone()), one("npm-cache"));
        push_cache(&mut out, "pnpm_cache", CacheBase::Dir(d.clone()), two("pnpm", "store"));
        push_cache(&mut out, "yarn_cache", CacheBase::Dir(d.clone()), two("Yarn", "Cache"));
    }
    if let Some(d) = &app_data {
        push_cache(&mut out, "npm_cache", CacheBase::Dir(d.clone()), one("npm-cache"));
    }
    assert(placements(out@) =~= windows_layout(opt_text(local_app_data), opt_text(app_data)));
    out
}

/// The package-manager caches a scan inspects on `os`. On Windows they lie
/// under the given application-data directories; elsewhere under the current
/// user's home directory, looked up here (so `local_app_data` and `app_data`
/// are not used).
pub fn cache_dirs(os: TargetOs, local_app_data: Option<String>, app_data: Option<String>) -> (r:
    Vec<CacheDir>)
    ensures
        all_cache_risk(r@),
        os == TargetOs::Windows ==> placements(r@) == windows_layout(
            opt_text(local_app_data),
            opt_text(app_data),
        ),
        os == TargetOs::Unix ==> exists|home: Option<std::path::PathBuf>|
            placements(r@) == home_layout(home),
{
    match os {
        TargetOs::Windows => windows_cache_dirs(local_app_data, app_data),
        TargetOs::Unix => {
            let home = home_dir();
            let r = home_cache_dirs(home);
            assert(placements(r@) == home_layout(home));
            r
        },
    }
}

/// Appends the candidate for the cache `cache`, found at `path`, unless it
/// is empty: its kind and warning are the cache's, its source the package manager.
pub fn push_cache_item(
    items: &mut Vec<CleanupItem>,
    cache: &CacheDir,
    path: String,
    size_bytes: u64,
    last_used_unix: u64,
)
    ensures
        pushed(
            old(items)@,
            final(items)@,
            cache.kind@,
            path@,
            size_bytes,
            last_used_unix,
            cache.risk@,
            "package_manager"@,
        ),
{
    push_item(
        items,
        cache.kind.as_str(),
        path,
        size_bytes,
        last_used_unix,
        cache.risk.as_str(),
        "package_manager",
    );
}

} // verus!
