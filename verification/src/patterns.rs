//! Ignore rules: which directories a scan must not enter.
use vstd::prelude::*;
use crate::model::TargetOs;
use crate::text::{
    chars_of, contains_chars, contains_seq, lowercase, to_lowercase, trim, trim_ws,
};

verus! {

/// The texts held by a sequence of strings.
pub open spec fn texts(v: Seq<String>) -> Seq<Seq<char>> {
    v.map_values(|s: String| s@)
}

/// What one user pattern becomes: trimmed and lower-cased, or dropped when blank.
pub open spec fn normalized(p: Seq<char>) -> Option<Seq<char>> {
    if trim_ws(p).len() == 0 {
        None
    } else {
        Some(lowercase(trim_ws(p)))
    }
}

/// The usable patterns among `raw`, normalised, in their order.
pub open spec fn normalized_all(raw: Seq<Seq<char>>) -> Seq<Seq<char>>
    decreases raw.len(),
{
    if raw.len() == 0 {
        Seq::empty()
    } else {
        let prev = normalized_all(raw.drop_last());
        match normalized(raw.last()) {
            Some(p) => prev.push(p),
            None => prev,
        }
    }
}

/// `text` holds one of `patterns`.
pub open spec fn holds_any(text: Seq<char>, patterns: Seq<Seq<char>>) -> bool {
    exists|i: int| 0 <= i < patterns.len() && contains_seq(text, #[trigger] patterns[i])
}

/// The system locations a scan never enters on `os`.
pub open spec fn default_ignores(os: TargetOs) -> Seq<Seq<char>> {
    match os {
        TargetOs::Windows => seq![
            "\\windows\\"@,
            "\\program files\\"@,
            "\\program files (x86)\\"@,
            "\\$recycle.bin\\"@,
            "\\system volume information\\"@,
        ],
        TargetOs::Unix => seq![
            "/system/"@,
            "/private/"@,
            "/applications/"@,
            "/volumes/"@,
            "/dev/"@,
            "/proc/"@,
            "/sys/"@,
            "/tmp/"@,
        ],
    }
}

/// Turns user-supplied ignore patterns into the form they are matched in:
/// each is trimmed and lower-cased, and blank ones are dropped.
pub fn normalize_patterns(raw_patterns: &[String]) -> (r: Vec<String>)
    ensures
        texts(r@) == normalized_all(texts(raw_patterns@)),
        r@.len() <= raw_patterns@.len(),
        forall|i: int| 0 <= i < r@.len() ==> (#[trigger] r@[i])@.len() > 0,
{
    let mut out: Vec<String> = Vec::new();
    let mut i: usize = 0;
    assert(texts(raw_patterns@).take(0) =~= Seq::<Seq<char>>::empty());
    assert(texts(out@) =~= Seq::<Seq<char>>::empty());
    while i < raw_patterns.len()
        invariant
            i <= raw_patterns@.len(),
            texts(out@) == normalized_all(texts(raw_patterns@).take(i as int)),
            out@.len() <= i,
            forall|k: int| 0 <= k < out@.len() ==> (#[trigger] out@[k])@.len() > 0,
        decreases raw_patterns.len() - i,
    {
        let ghost before = out@;
        assert(texts(raw_patterns@).take(i + 1).drop_last() =~= texts(raw_patterns@).take(
            i as int,
        ));
        assert(texts(raw_patterns@).take(i + 1).last() == raw_patterns@[i as int]@);
        let trimmed = trim(raw_patterns[i].as_str());
        if !trimmed.as_str().is_empty() {
            let lower = to_lowercase(trimmed.as_str());
            out.push(lower);
            assert(texts(out@) =~= texts(before).push(lower@));
            assert(forall|k: int| 0 <= k < before.len() ==> out@[k] == before[k]);
        }
        i = i + 1;
    }
    assert(texts(raw_patterns@).take(raw_patterns@.len() as int) =~= texts(raw_patterns@));
    out
}

/// Whether the already lower-cased `lower` holds one of `patterns`.
pub fn matches_any_pattern(lower: &str, patterns: &[String]) -> (r: bool)
    ensures
        r == holds_any(lower@, texts(patterns@)),
{
    let text = chars_of(lower);
    let mut i: usize = 0;
    while i < patterns.len()
        invariant
            i <= patterns@.len(),
            text@ == lower@,
            forall|k: int| 0 <= k < i ==> !contains_seq(lower@, #[trigger] texts(patterns@)[k]),
        decreases patterns.len() - i,
    {
        let pat = chars_of(patterns[i].as_str());
        if contains_chars(text.as_slice(), pat.as_slice()) {
            assert(texts(patterns@)[i as int] == pat@);
            return true;
        }
        i = i + 1;
    }
    false
}

/// Whether a directory must be skipped: its path, lower-cased, holds one of
/// the (normalised) `patterns`.
pub fn should_ignore(path: &str, patterns: &[String]) -> (r: bool)
    ensures
        r == holds_any(lowercase(path@), texts(patterns@)),
{
    let lower = to_lowercase(path);
    matches_any_pattern(lower.as_str(), patterns)
}

/// The system locations a scan never enters on `os`.
pub fn default_ignore_patterns(os: TargetOs) -> (r: Vec<String>)
    ensures
        texts(r@) == default_ignores(os),
{
    let mut out: Vec<String> = Vec::new();
    match os {
        TargetOs::Windows => {
            out.push(String::from_str("\\windows\\"));
            out.push(String::from_str("\\program files\\"));
            out.push(String::from_str("\\program files (x86)\\"));
            out.push(String::from_str("\\$recycle.bin\\"));
            out.push(String::from_str("\\system volume information\\"));
        },
        TargetOs::Unix => {
            out.push(String::from_str("/system/"));
            out.push(String::from_str("/private/"));
            out.push(String::from_str("/applications/"));
            out.push(String::from_str("/volumes/"));
            out.push(String::from_str("/dev/"));
            out.push(String::from_str("/proc/"));
            out.push(String::from_str("/sys/"));
            out.push(String::from_str("/tmp/"));
        },
    }
    assert(texts(out@) =~= default_ignores(os));
    out
}

} // verus!
