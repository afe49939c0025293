//! Text primitives over character sequences, with exact specifications.
//!
//! Unicode case mapping is delegated to the standard library; everything
//! else is computed here.
use vstd::prelude::*;

verus! {

// ---------------------------------------------------------------------------
// Unicode facts
// ---------------------------------------------------------------------------

/// Whether `c` has the Unicode `White_Space` property (the property
/// `char::is_whitespace` tests): tab, line feed, vertical tab, form feed,
/// carriage return, space, next line, no-break space, ogham space mark, the
/// spaces U+2000 to U+200A, line and paragraph separator, narrow no-break
/// space, medium mathematical space and ideographic space.
pub open spec fn unicode_white_space(c: char) -> bool {
    let u = c as u32;
    ||| 0x9 <= u <= 0xD
    ||| u == 0x20
    ||| u == 0x85
    ||| u == 0xA0
    ||| u == 0x1680
    ||| 0x2000 <= u <= 0x200A
    ||| u == 0x2028
    ||| u == 0x2029
    ||| u == 0x202F
    ||| u == 0x205F
    ||| u == 0x3000
}

/// The full Unicode lower-case mapping of a string, as `str::to_lowercase`
/// computes it (named for text that is not all ASCII; see [`lowercase`]).
pub uninterp spec fn unicode_lowercase(s: Seq<char>) -> Seq<char>;

/// The full Unicode upper-case mapping of a string, as `str::to_uppercase`
/// computes it (named for text that is not all ASCII; see [`uppercase`]).
pub uninterp spec fn unicode_uppercase(s: Seq<char>) -> Seq<char>;

/// Whether `c` is Unicode whitespace (see [`unicode_white_space`]).
pub fn is_white_space(c: char) -> (r: bool)
    ensures
        r == unicode_white_space(c),
{
    let u = c as u32;
    (0x9 <= u && u <= 0xD) || u == 0x20 || u == 0x85 || u == 0xA0 || u == 0x1680 || (0x2000 <= u
        && u <= 0x200A) || u == 0x2028 || u == 0x2029 || u == 0x202F || u == 0x205F || u == 0x3000
}

/// All characters of `s` are ASCII.
pub open spec fn is_ascii_text(s: Seq<char>) -> bool {
    forall|i: int| #![trigger s[i]] 0 <= i < s.len() ==> (s[i] as u32) < 128
}

/// ASCII lower-casing of one character: `A` to `Z` become `a` to `z`.
pub open spec fn ascii_lower(c: char) -> char {
    if 'A' <= c && c <= 'Z' {
        ((c as u32) + 32) as char
    } else {
        c
    }
}

/// ASCII upper-casing of one character: `a` to `z` become `A` to `Z`.
pub open spec fn ascii_upper(c: char) -> char {
    if 'a' <= c && c <= 'z' {
        ((c as u32) - 32) as char
    } else {
        c
    }
}

/// The lower-case form of `s` (what `str::to_lowercase` returns): for ASCII
/// text, `A` to `Z` become `a` to `z` and every other character stays.
pub open spec fn lowercase(s: Seq<char>) -> Seq<char> {
    if is_ascii_text(s) {
        s.map_values(|c: char| ascii_lower(c))
    } else {
        unicode_lowercase(s)
    }
}

/// The upper-case form of `s` (what `str::to_uppercase` returns): for ASCII
/// text, `a` to `z` become `A` to `Z` and every other character stays.
pub open spec fn uppercase(s: Seq<char>) -> Seq<char> {
    if is_ascii_text(s) {
        s.map_values(|c: char| ascii_upper(c))
    } else {
        unicode_uppercase(s)
    }
}

/// Calls `str::to_lowercase`. The contract states what the documentation
/// gives for ASCII text (its letters `A` to `Z` become `a` to `z`, every
/// other character stays), and that no text gets shorter (each character
/// lower-cases to one or more characters); for other text it only names the
/// result ([`unicode_lowercase`]): the Unicode case tables are not restated.
#[verifier::external_body]
pub(crate) fn to_lowercase(s: &str) -> (r: String)
    ensures
        r@ == lowercase(s@),
        !is_ascii_text(s@) ==> r@ == unicode_lowercase(s@),
        r@.len() >= s@.len(),
{
    s.to_lowercase()
}

/// Calls `str::to_uppercase`. The contract states what the documentation
/// gives for ASCII text (its letters `a` to `z` become `A` to `Z`, every
/// other character stays), and that no text gets shorter (each character
/// upper-cases to one or more characters); for other text it only names the
/// result ([`unicode_uppercase`]): the Unicode case tables are not restated.
#[verifier::external_body]
pub(crate) fn to_uppercase(s: &str) -> (r: String)
    ensures
        r@ == uppercase(s@),
        !is_ascii_text(s@) ==> r@ == unicode_uppercase(s@),
        r@.len() >= s@.len(),
{
    s.to_uppercase()
}

/// Collects characters into a `String` (`FromIterator<char>` for `String`),
/// which holds exactly those characters in order.
#[verifier::external_body]
pub(crate) fn string_from_chars(cs: &[char]) -> (r: String)
    ensures
        r@ == cs@,
{
    cs.iter().collect()
}

// ---------------------------------------------------------------------------
// Specifications
// ---------------------------------------------------------------------------

/// `s` without its leading whitespace.
pub open spec fn trim_start_ws(s: Seq<char>) -> Seq<char>
    decreases s.len(),
{
    if s.len() > 0 && unicode_white_space(s[0]) {
        trim_start_ws(s.drop_first())
    } else {
        s
    }
}

/// `s` without its trailing whitespace.
pub open spec fn trim_end_ws(s: Seq<char>) -> Seq<char>
    decreases s.len(),
{
    if s.len() > 0 && unicode_white_space(s.last()) {
        trim_end_ws(s.drop_last())
    } else {
        s
    }
}

/// `s` without leading and trailing whitespace (what `str::trim` returns).
pub open spec fn trim_ws(s: Seq<char>) -> Seq<char> {
    trim_end_ws(trim_start_ws(s))
}

/// The longest prefix of `s` that holds no whitespace.
pub open spec fn prefix_before_ws(s: Seq<char>) -> Seq<char>
    decreases s.len(),
{
    if s.len() == 0 || unicode_white_space(s[0]) {
        Seq::empty()
    } else {
        seq![s[0]] + prefix_before_ws(s.drop_first())
    }
}

/// The first whitespace-separated word of `s`, or the empty sequence when
/// `s` is blank (what `split_whitespace().next().unwrap_or_default()` gives).
pub open spec fn first_word(s: Seq<char>) -> Seq<char> {
    prefix_before_ws(trim_start_ws(s))
}

/// The longest prefix of `s` that does not hold `stop`
/// (the first piece of `split(stop)`).
pub open spec fn prefix_before(s: Seq<char>, stop: char) -> Seq<char>
    decreases s.len(),
{
    if s.len() == 0 || s[0] == stop {
        Seq::empty()
    } else {
        seq![s[0]] + prefix_before(s.drop_first(), stop)
    }
}

/// A line without its carriage return, when it ends in one.
pub open spec fn strip_cr(line: Seq<char>) -> Seq<char> {
    if line.len() > 0 && line.last() == '\r' {
        line.drop_last()
    } else {
        line
    }
}

/// The lines of `s` (what `str::lines` gives): the pieces between `\n`
/// characters, each without a `\r` just before its `\n`; a final `\n` does
/// not start another line, and an empty text has no lines.
pub open spec fn lines_spec(s: Seq<char>) -> Seq<Seq<char>>
    decreases s.len(),
{
    if s.len() == 0 {
        Seq::empty()
    } else {
        let line = prefix_before(s, '\n');
        if line.len() < s.len() {
            seq![strip_cr(line)] + lines_spec(s.subrange(line.len() + 1int, s.len() as int))
        } else {
            seq![s]
        }
    }
}

/// `s` with every occurrence of `c` removed.
pub open spec fn without_char(s: Seq<char>, c: char) -> Seq<char> {
    s.filter(differs_from(c))
}

/// The test "is not `c`".
pub open spec fn differs_from(c: char) -> spec_fn(char) -> bool {
    |x: char| x != c
}

/// `s` with every trailing repetition of the non-empty `pat` removed
/// (what `str::trim_end_matches(pat)` returns).
pub open spec fn trim_end_matches(s: Seq<char>, pat: Seq<char>) -> Seq<char>
    decreases s.len(),
{
    if pat.len() > 0 && pat.is_suffix_of(s) {
        trim_end_matches(s.subrange(0, s.len() - pat.len()), pat)
    } else {
        s
    }
}

/// `pat` occurs somewhere in `s` as a contiguous piece.
pub open spec fn contains_seq(s: Seq<char>, pat: Seq<char>) -> bool {
    exists|i: int| 0 <= i && i + pat.len() <= s.len() && #[trigger] s.subrange(i, i + pat.len()) == pat
}

/// ASCII lower-case folding of one character (other characters are unchanged).
pub open spec fn ascii_fold(c: char) -> u32 {
    if 'A' <= c && c <= 'Z' {
        (c as u32 + 32) as u32
    } else {
        c as u32
    }
}

/// `a` and `b` are equal up to ASCII case (what `str::eq_ignore_ascii_case` checks).
pub open spec fn eq_ignore_ascii_case(a: Seq<char>, b: Seq<char>) -> bool {
    a.len() == b.len() && forall|i: int| 0 <= i < a.len() ==> #[trigger] ascii_fold(a[i]) == ascii_fold(b[i])
}

/// `c` is an ASCII decimal digit.
pub open spec fn is_digit(c: char) -> bool {
    '0' <= c && c <= '9'
}

/// The value of a sequence of decimal digits.
pub open spec fn decimal_value(ds: Seq<char>) -> nat
    decreases ds.len(),
{
    if ds.len() == 0 {
        0
    } else {
        (decimal_value(ds.drop_last()) * 10 + (ds.last() as u32 - '0' as u32)) as nat
    }
}

/// The digits that `u64`'s `FromStr` reads: the text after one optional `+`.
pub open spec fn unsigned_digits(s: Seq<char>) -> Seq<char> {
    if s.len() > 0 && s[0] == '+' {
        s.drop_first()
    } else {
        s
    }
}

/// What `s.parse::<u64>()` yields: an optional `+` followed by at least one
/// ASCII digit whose value fits in a `u64`; anything else is an error (`None`).
pub open spec fn parse_u64_spec(s: Seq<char>) -> Option<u64> {
    let ds = unsigned_digits(s);
    if ds.len() > 0 && (forall|i: int| 0 <= i < ds.len() ==> #[trigger] is_digit(ds[i]))
        && decimal_value(ds) <= u64::MAX {
        Some(decimal_value(ds) as u64)
    } else {
        None
    }
}

// ---------------------------------------------------------------------------
// Executable operations
// ---------------------------------------------------------------------------

/// The characters of `s`, in order.
pub fn chars_of(s: &str) -> (r: Vec<char>)
    ensures
        r@ == s@,
{
    let mut out: Vec<char> = Vec::new();
    for c in it: s.chars()
        invariant
            it.seq() == s@,
            out@ == it.seq().take(it.index() as int),
    {
        out.push(c);
    }
    out
}

/// The bounds `(start, end)` of `cs` without leading and trailing whitespace.
pub fn trim_bounds(cs: &[char]) -> (r: (usize, usize))
    ensures
        r.0 <= r.1 <= cs@.len(),
        cs@.subrange(r.0 as int, r.1 as int) == trim_ws(cs@),
        cs@.subrange(r.0 as int, cs@.len() as int) == trim_start_ws(cs@),
{
    let len = cs.len();
    let mut start: usize = 0;
    assert(cs@.subrange(0, len as int) =~= cs@);
    while start < len && is_white_space(cs[start])
        invariant
            start <= len == cs@.len(),
            trim_start_ws(cs@) == trim_start_ws(cs@.subrange(start as int, len as int)),
        decreases len - start,
    {
        assert(cs@.subrange(start as int, len as int).drop_first() =~= cs@.subrange(
            start + 1,
            len as int,
        ));
        start = start + 1;
    }
    let ghost head = cs@.subrange(start as int, len as int);
    assert(trim_start_ws(head) == head);
    let mut end: usize = len;
    while end > start && is_white_space(cs[end - 1])
        invariant
            start <= end <= len == cs@.len(),
            head == cs@.subrange(start as int, len as int),
            trim_end_ws(head) == trim_end_ws(cs@.subrange(start as int, end as int)),
        decreases end,
    {
        assert(cs@.subrange(start as int, end as int).drop_last() =~= cs@.subrange(
            start as int,
            end - 1,
        ));
        end = end - 1;
    }
    (start, end)
}

/// The characters `cs[start..end]`, copied.
pub fn copy_range(cs: &[char], start: usize, end: usize) -> (r: Vec<char>)
    requires
        start <= end <= cs@.len(),
    ensures
        r@ == cs@.subrange(start as int, end as int),
{
    let mut out: Vec<char> = Vec::new();
    let mut i = start;
    while i < end
        invariant
            start <= i <= end <= cs@.len(),
            out@ == cs@.subrange(start as int, i as int),
        decreases end - i,
    {
        out.push(cs[i]);
        i = i + 1;
    }
    out
}

/// `s` without leading and trailing whitespace (`str::trim`).
pub fn trim(s: &str) -> (r: String)
    ensures
        r@ == trim_ws(s@),
{
    let cs = chars_of(s);
    let (start, end) = trim_bounds(cs.as_slice());
    let kept = copy_range(cs.as_slice(), start, end);
    string_from_chars(kept.as_slice())
}

/// The first whitespace-separated word of `cs`, or nothing when `cs` is blank.
pub fn first_word_of(cs: &[char]) -> (r: Vec<char>)
    ensures
        r@ == first_word(cs@),
{
    let (start, _end) = trim_bounds(cs);
    let len = cs.len();
    let ghost tail = cs@.subrange(start as int, len as int);
    let mut k = start;
    assert(cs@.subrange(start as int, start as int) =~= Seq::<char>::empty());
    while k < len && !is_white_space(cs[k])
        invariant
            start <= k <= len == cs@.len(),
            tail == cs@.subrange(start as int, len as int),
            prefix_before_ws(tail) == cs@.subrange(start as int, k as int) + prefix_before_ws(
                cs@.subrange(k as int, len as int),
            ),
        decreases len - k,
    {
        let ghost rest = cs@.subrange(k as int, len as int);
        assert(rest.drop_first() =~= cs@.subrange(k + 1, len as int));
        assert(cs@.subrange(start as int, k as int) + seq![cs@[k as int]] =~= cs@.subrange(
            start as int,
            k + 1,
        ));
        assert(cs@.subrange(start as int, k as int) + (seq![cs@[k as int]] + prefix_before_ws(
            rest.drop_first(),
        )) =~= cs@.subrange(start as int, k + 1) + prefix_before_ws(rest.drop_first()));
        k = k + 1;
    }
    assert(prefix_before_ws(cs@.subrange(k as int, len as int)) =~= Seq::<char>::empty());
    assert(cs@.subrange(start as int, k as int) + Seq::<char>::empty() =~= cs@.subrange(
        start as int,
        k as int,
    ));
    copy_range(cs, start, k)
}

/// The part of `cs` before the first `stop` (all of `cs` when there is none).
pub fn prefix_before_char(cs: &[char], stop: char) -> (r: Vec<char>)
    ensures
        r@ == prefix_before(cs@, stop),
{
    let len = cs.len();
    let mut k: usize = 0;
    assert(cs@.subrange(0, len as int) =~= cs@);
    assert(cs@.subrange(0, 0) =~= Seq::<char>::empty());
    while k < len && cs[k] != stop
        invariant
            k <= len == cs@.len(),
            prefix_before(cs@, stop) == cs@.subrange(0, k as int) + prefix_before(
                cs@.subrange(k as int, len as int),
                stop,
            ),
        decreases len - k,
    {
        let ghost rest = cs@.subrange(k as int, len as int);
        assert(rest.drop_first() =~= cs@.subrange(k + 1, len as int));
        assert(cs@.subrange(0, k as int) + (seq![cs@[k as int]] + prefix_before(
            rest.drop_first(),
            stop,
        )) =~= cs@.subrange(0, k + 1) + prefix_before(rest.drop_first(), stop));
        k = k + 1;
    }
    assert(prefix_before(cs@.subrange(k as int, len as int), stop) =~= Seq::<char>::empty());
    assert(cs@.subrange(0, k as int) + Seq::<char>::empty() =~= cs@.subrange(0, k as int));
    copy_range(cs, 0, k)
}

/// The part before the first `stop` is a prefix, and `stop` follows it
/// unless it is all of `s`.
pub proof fn lemma_prefix_before(s: Seq<char>, stop: char)
    ensures
        prefix_before(s, stop).len() <= s.len(),
        prefix_before(s, stop) == s.subrange(0, prefix_before(s, stop).len() as int),
        prefix_before(s, stop).len() < s.len() ==> s[prefix_before(s, stop).len() as int] == stop,
    decreases s.len(),
{
    if s.len() > 0 && s[0] != stop {
        lemma_prefix_before(s.drop_first(), stop);
        let p = prefix_before(s.drop_first(), stop);
        assert(seq![s[0]] + p =~= s.subrange(0, p.len() + 1int));
    } else if s.len() > 0 {
        assert(prefix_before(s, stop) =~= s.subrange(0, 0));
    } else {
        assert(prefix_before(s, stop) =~= s.subrange(0, 0));
    }
}

/// The lines of `text` (`str::lines`).
pub fn lines_of(text: &str) -> (r: Vec<String>)
    ensures
        r@.map_values(|l: String| l@) == lines_spec(text@),
{
    let cs = chars_of(text);
    let n = cs.len();
    let mut out: Vec<String> = Vec::new();
    let mut start: usize = 0;
    assert(cs@.subrange(0, n as int) =~= cs@);
    assert(out@.map_values(|l: String| l@) =~= Seq::<Seq<char>>::empty());
    while start < n
        invariant
            start <= n == cs@.len(),
            lines_spec(cs@) == out@.map_values(|l: String| l@) + lines_spec(
                cs@.subrange(start as int, n as int),
            ),
        decreases n - start,
    {
        let rest = copy_range(cs.as_slice(), start, n);
        let line = prefix_before_char(rest.as_slice(), '\n');
        proof {
            lemma_prefix_before(rest@, '\n');
        }
        let ghost before = out@;
        if line.len() < rest.len() {
            let keep = if line.len() > 0 && line[line.len() - 1] == '\r' {
                line.len() - 1
            } else {
                line.len()
            };
            let piece = copy_range(line.as_slice(), 0, keep);
            assert(piece@ =~= strip_cr(line@));
            out.push(string_from_chars(piece.as_slice()));
            let next = start + line.len() + 1;
            assert(rest@.subrange(line@.len() + 1int, rest@.len() as int) =~= cs@.subrange(
                next as int,
                n as int,
            ));
            assert(out@.map_values(|l: String| l@) =~= before.map_values(|l: String| l@).push(
                strip_cr(line@),
            ));
            assert(out@.map_values(|l: String| l@) + lines_spec(cs@.subrange(next as int, n as int))
                =~= before.map_values(|l: String| l@) + (seq![strip_cr(line@)] + lines_spec(
                cs@.subrange(next as int, n as int),
            )));
            start = next;
        } else {
            out.push(string_from_chars(rest.as_slice()));
            assert(out@.map_values(|l: String| l@) =~= before.map_values(|l: String| l@).push(
                rest@,
            ));
            assert(cs@.subrange(n as int, n as int) =~= Seq::<char>::empty());
            assert(out@.map_values(|l: String| l@) + Seq::<Seq<char>>::empty() =~= before.map_values(
                |l: String| l@,
            ) + seq![rest@]);
            start = n;
        }
    }
    assert(cs@.subrange(n as int, n as int) =~= Seq::<char>::empty());
    assert(out@.map_values(|l: String| l@) + Seq::<Seq<char>>::empty() =~= out@.map_values(
        |l: String| l@,
    ));
    out
}

/// `cs` with every `c` removed.
pub fn remove_char(cs: &[char], c: char) -> (r: Vec<char>)
    ensures
        r@ == without_char(cs@, c),
{
    let mut out: Vec<char> = Vec::new();
    let mut i: usize = 0;
    let ghost keep = differs_from(c);
    assert(cs@.take(0) =~= Seq::<char>::empty());
    while i < cs.len()
        invariant
            i <= cs@.len(),
            keep == differs_from(c),
            out@ == cs@.take(i as int).filter(keep),
        decreases cs.len() - i,
    {
        assert(cs@.take(i + 1) =~= cs@.take(i as int).push(cs@[i as int]));
        proof {
            cs@.take(i as int).lemma_filter_push(cs@[i as int], keep);
        }
        if cs[i] != c {
            out.push(cs[i]);
        }
        i = i + 1;
    }
    assert(cs@.take(cs.len() as int) =~= cs@);
    out
}

/// Whether `pat` ends `cs[..end]`.
pub fn ends_with_at(cs: &[char], end: usize, pat: &[char]) -> (r: bool)
    requires
        end <= cs@.len(),
    ensures
        r == pat@.is_suffix_of(cs@.subrange(0, end as int)),
{
    if pat.len() > end {
        return false;
    }
    let off = end - pat.len();
    let mut j: usize = 0;
    while j < pat.len()
        invariant
            off + pat@.len() == end <= cs@.len(),
            j <= pat@.len(),
            forall|t: int| 0 <= t < j ==> cs@[off + t] == pat@[t],
        decreases pat.len() - j,
    {
        if cs[off + j] != pat[j] {
            assert(cs@.subrange(0, end as int).subrange(off as int, end as int)[j as int]
                != pat@[j as int]);
            return false;
        }
        j = j + 1;
    }
    assert(pat@ =~= cs@.subrange(0, end as int).subrange(off as int, end as int));
    true
}

/// Whether `pat` begins `cs`.
pub fn starts_with(cs: &[char], pat: &[char]) -> (r: bool)
    ensures
        r == pat@.is_prefix_of(cs@),
{
    if pat.len() > cs.len() {
        return false;
    }
    let mut j: usize = 0;
    while j < pat.len()
        invariant
            pat@.len() <= cs@.len(),
            j <= pat@.len(),
            forall|t: int| 0 <= t < j ==> cs@[t] == pat@[t],
        decreases pat.len() - j,
    {
        if cs[j] != pat[j] {
            assert(cs@.subrange(0, pat@.len() as int)[j as int] != pat@[j as int]);
            return false;
        }
        j = j + 1;
    }
    assert(pat@ =~= cs@.subrange(0, pat@.len() as int));
    true
}

/// The length of `cs` once every trailing repetition of the non-empty `pat`
/// is removed (`str::trim_end_matches`).
pub fn trim_end_matches_len(cs: &[char], pat: &[char]) -> (r: usize)
    requires
        pat@.len() > 0,
    ensures
        r <= cs@.len(),
        cs@.subrange(0, r as int) == trim_end_matches(cs@, pat@),
{
    let mut end = cs.len();
    assert(cs@.subrange(0, end as int) =~= cs@);
    while ends_with_at(cs, end, pat)
        invariant
            pat@.len() > 0,
            end <= cs@.len(),
            trim_end_matches(cs@, pat@) == trim_end_matches(cs@.subrange(0, end as int), pat@),
        decreases end,
    {
        assert(cs@.subrange(0, end as int).subrange(0, end - pat@.len()) =~= cs@.subrange(
            0,
            end - pat@.len(),
        ));
        end = end - pat.len();
    }
    end
}

/// Whether `pat` occurs in `cs` as a contiguous piece (`str::contains`).
pub fn contains_chars(cs: &[char], pat: &[char]) -> (r: bool)
    ensures
        r == contains_seq(cs@, pat@),
{
    if pat.len() > cs.len() {
        assert forall|i: int| 0 <= i && i + pat@.len() <= cs@.len() implies #[trigger] cs@.subrange(
            i,
            i + pat@.len(),
        ) != pat@ by {}
        return false;
    }
    if pat.len() == 0 {
        assert(cs@.subrange(0, 0 + pat@.len() as int) =~= pat@);
        return true;
    }
    let n = cs.len();
    let last = n - pat.len();
    let mut i: usize = 0;
    while i <= last
        invariant
            n == cs@.len(),
            pat@.len() > 0,
            last + pat@.len() == cs@.len(),
            i <= last + 1,
            forall|k: int| 0 <= k < i ==> #[trigger] cs@.subrange(k, k + pat@.len()) != pat@,
        decreases last + 1 - i,
    {
        let mut j: usize = 0;
        let mut same = true;
        while same && j < pat.len()
            invariant
                n == cs@.len(),
                last + pat@.len() == cs@.len(),
                i <= last,
                j <= pat@.len(),
                same ==> forall|t: int| 0 <= t < j ==> cs@[i + t] == pat@[t],
                !same ==> cs@.subrange(i as int, i + pat@.len()) != pat@,
            decreases 2 * (pat@.len() - j) + if same {
                1int
            } else {
                0int
            },
        {
            if cs[i + j] != pat[j] {
                assert(cs@.subrange(i as int, i + pat@.len())[j as int] != pat@[j as int]);
                same = false;
            } else {
                j = j + 1;
            }
        }
        if same {
            assert(cs@.subrange(i as int, i + pat@.len()) =~= pat@);
            return true;
        }
        i = i + 1;
    }
    false
}

/// Whether `a` and `b` are equal up to ASCII case (`str::eq_ignore_ascii_case`).
pub fn eq_ignore_case_ascii(a: &[char], b: &[char]) -> (r: bool)
    ensures
        r == eq_ignore_ascii_case(a@, b@),
{
    if a.len() != b.len() {
        return false;
    }
    let mut i: usize = 0;
    while i < a.len()
        invariant
            a@.len() == b@.len(),
            i <= a@.len(),
            forall|t: int| 0 <= t < i ==> #[trigger] ascii_fold(a@[t]) == ascii_fold(b@[t]),
        decreases a.len() - i,
    {
        if fold_ascii(a[i]) != fold_ascii(b[i]) {
            return false;
        }
        i = i + 1;
    }
    true
}

/// ASCII lower-case folding of one character, as a code point.
pub fn fold_ascii(c: char) -> (r: u32)
    ensures
        r == ascii_fold(c),
{
    if 'A' <= c && c <= 'Z' {
        c as u32 + 32
    } else {
        c as u32
    }
}

/// Reads `cs` as `u64`'s `FromStr` does: an optional `+`, then one or more
/// ASCII digits whose value fits; `None` for anything else.
pub fn parse_u64_chars(cs: &[char]) -> (r: Option<u64>)
    ensures
        r == parse_u64_spec(cs@),
{
    let start: usize = if cs.len() > 0 && cs[0] == '+' {
        1
    } else {
        0
    };
    let ghost ds = unsigned_digits(cs@);
    assert(ds =~= cs@.subrange(start as int, cs@.len() as int));
    if start == cs.len() {
        return None;
    }
    let mut value: u64 = 0;
    let mut i: usize = start;
    assert(ds.take(0) =~= Seq::<char>::empty());
    while i < cs.len()
        invariant
            start <= i <= cs@.len(),
            start < cs@.len(),
            ds == cs@.subrange(start as int, cs@.len() as int),
            ds == unsigned_digits(cs@),
            forall|t: int| 0 <= t < i - start ==> #[trigger] is_digit(ds[t]),
            value == decimal_value(ds.take(i - start)),
        decreases cs.len() - i,
    {
        let c = cs[i];
        if !('0' <= c && c <= '9') {
            assert(ds[i - start] == c);
            assert(!is_digit(ds[i - start]));
            return None;
        }
        assert(ds[i - start] == c);
        assert(is_digit(ds[i - start]));
        let d = (c as u32 - '0' as u32) as u64;
        assert(ds.take(i - start + 1).drop_last() =~= ds.take(i - start));
        assert(ds.take(i - start + 1).last() == c);
        match value.checked_mul(10) {
            None => {
                proof {
                    lemma_overflow_rejects(ds, i - start + 1);
                }
                return None;
            },
            Some(tens) => match tens.checked_add(d) {
                None => {
                    proof {
                        lemma_overflow_rejects(ds, i - start + 1);
                    }
                    return None;
                },
                Some(next) => {
                    value = next;
                },
            },
        }
        i = i + 1;
    }
    assert(ds.take(ds.len() as int) =~= ds);
    Some(value)
}

/// Once a prefix of the digits is too large for a `u64`, the whole text is rejected.
proof fn lemma_overflow_rejects(ds: Seq<char>, k: int)
    requires
        0 <= k <= ds.len(),
        decimal_value(ds.take(k)) > u64::MAX,
    ensures
        !((forall|i: int| 0 <= i < ds.len() ==> #[trigger] is_digit(ds[i])) && decimal_value(ds)
            <= u64::MAX),
{
    if forall|i: int| 0 <= i < ds.len() ==> #[trigger] is_digit(ds[i]) {
        lemma_decimal_value_grows(ds, k, ds.len() as int);
    }
}

/// Extending a digit sequence never lowers its value.
proof fn lemma_decimal_value_grows(ds: Seq<char>, i: int, j: int)
    requires
        0 <= i <= j <= ds.len(),
        forall|t: int| 0 <= t < ds.len() ==> #[trigger] is_digit(ds[t]),
    ensures
        decimal_value(ds.take(i)) <= decimal_value(ds.take(j)),
        j == ds.len() ==> decimal_value(ds.take(j)) == decimal_value(ds),
    decreases j - i,
{
    assert(ds.take(ds.len() as int) =~= ds);
    if i < j {
        lemma_decimal_value_grows(ds, i, j - 1);
        assert(ds.take(j).drop_last() =~= ds.take(j - 1));
        assert(is_digit(ds[j - 1]));
        assert(ds.take(j).last() == ds[j - 1]);
    }
}

// ---------------------------------------------------------------------------
// Trimming and ASCII case
// ---------------------------------------------------------------------------

/// ASCII lower-casing keeps whether a character is whitespace, keeps it
/// ASCII, and changes nothing the second time.
pub proof fn lemma_ascii_lower_char(c: char)
    ensures
        unicode_white_space(ascii_lower(c)) == unicode_white_space(c),
        (c as u32) < 128 ==> (ascii_lower(c) as u32) < 128,
        ascii_lower(ascii_lower(c)) == ascii_lower(c),
{
}

/// What is left after dropping leading whitespace is a suffix of `s` that
/// does not start with whitespace.
pub proof fn lemma_trim_start_suffix(s: Seq<char>) -> (k: int)
    ensures
        0 <= k <= s.len(),
        trim_start_ws(s) == s.subrange(k, s.len() as int),
        trim_start_ws(s).len() > 0 ==> !unicode_white_space(trim_start_ws(s)[0]),
    decreases s.len(),
{
    if s.len() > 0 && unicode_white_space(s[0]) {
        let j = lemma_trim_start_suffix(s.drop_first());
        assert(s.drop_first().subrange(j, s.drop_first().len() as int) =~= s.subrange(
            j + 1,
            s.len() as int,
        ));
        j + 1
    } else {
        assert(s.subrange(0, s.len() as int) =~= s);
        0
    }
}

/// What is left after dropping trailing whitespace is a prefix of `s` that
/// does not end in whitespace.
pub proof fn lemma_trim_end_prefix(s: Seq<char>) -> (k: int)
    ensures
        0 <= k <= s.len(),
        trim_end_ws(s) == s.subrange(0, k),
        trim_end_ws(s).len() > 0 ==> !unicode_white_space(trim_end_ws(s).last()),
    decreases s.len(),
{
    if s.len() > 0 && unicode_white_space(s.last()) {
        let j = lemma_trim_end_prefix(s.drop_last());
        assert(s.drop_last().subrange(0, j) =~= s.subrange(0, j));
        j
    } else {
        assert(s.subrange(0, s.len() as int) =~= s);
        s.len() as int
    }
}

/// Trimming gives a piece of `s` that neither starts nor ends with whitespace.
pub proof fn lemma_trim_ws_slice(s: Seq<char>) -> (bounds: (int, int))
    ensures
        0 <= bounds.0 <= bounds.1 <= s.len(),
        trim_ws(s) == s.subrange(bounds.0, bounds.1),
        trim_ws(s).len() > 0 ==> !unicode_white_space(trim_ws(s)[0]) && !unicode_white_space(
            trim_ws(s).last(),
        ),
{
    let i = lemma_trim_start_suffix(s);
    let head = trim_start_ws(s);
    let j = lemma_trim_end_prefix(head);
    assert(head.subrange(0, j) =~= s.subrange(i, i + j));
    if j > 0 {
        assert(trim_ws(s)[0] == head[0]);
    }
    (i, i + j)
}

/// A text that neither starts nor ends with whitespace is its own trim.
pub proof fn lemma_trim_ws_fixed(t: Seq<char>)
    requires
        t.len() > 0 ==> !unicode_white_space(t[0]) && !unicode_white_space(t.last()),
    ensures
        trim_ws(t) == t,
{
}

/// The characters of a piece of ASCII text are ASCII.
pub proof fn lemma_ascii_slice(s: Seq<char>, i: int, j: int)
    requires
        is_ascii_text(s),
        0 <= i <= j <= s.len(),
    ensures
        is_ascii_text(s.subrange(i, j)),
{
    assert forall|k: int| 0 <= k < s.subrange(i, j).len() implies (s.subrange(i, j)[k] as u32)
        < 128 by {
        assert(s.subrange(i, j)[k] == s[i + k]);
    }
}

/// The lower-case form of trimmed ASCII text is ASCII, trimmed, and its own
/// lower-case form.
pub proof fn lemma_lowercase_trimmed_ascii(t: Seq<char>)
    requires
        is_ascii_text(t),
        trim_ws(t) == t,
    ensures
        is_ascii_text(lowercase(t)),
        lowercase(t).len() == t.len(),
        trim_ws(lowercase(t)) == lowercase(t),
        lowercase(lowercase(t)) == lowercase(t),
{
    let q = t.map_values(|c: char| ascii_lower(c));
    assert(lowercase(t) == q);
    assert(is_ascii_text(q)) by {
        assert forall|k: int| 0 <= k < q.len() implies (q[k] as u32) < 128 by {
            lemma_ascii_lower_char(t[k]);
        }
    }
    assert(trim_ws(q) == q) by {
        lemma_trim_ws_slice(t);
        if q.len() > 0 {
            lemma_ascii_lower_char(t[0]);
            lemma_ascii_lower_char(t.last());
            assert(q.last() == ascii_lower(t.last()));
        }
        lemma_trim_ws_fixed(q);
    }
    assert(lowercase(q) == q) by {
        let qq = q.map_values(|c: char| ascii_lower(c));
        assert forall|k: int| 0 <= k < q.len() implies #[trigger] qq[k] == q[k] by {
            lemma_ascii_lower_char(t[k]);
        }
        assert(qq =~= q);
    }
}

// ---------------------------------------------------------------------------
// Decimal text
// ---------------------------------------------------------------------------

/// The ASCII digit for `d` (0 to 9).
pub open spec fn digit_char(d: nat) -> char {
    ((d + 48) as u32) as char
}

/// The decimal text of `n` (as `n.to_string()` writes an unsigned integer):
/// its digits, most significant first, without leading zeros.
pub open spec fn decimal_text(n: nat) -> Seq<char>
    decreases n,
{
    if n < 10 {
        seq![digit_char(n)]
    } else {
        decimal_text(n / 10).push(digit_char(n % 10))
    }
}

/// The decimal text of `n` is a non-empty run of digits whose value is `n`.
pub proof fn lemma_decimal_text(n: nat)
    ensures
        decimal_text(n).len() > 0,
        forall|i: int| 0 <= i < decimal_text(n).len() ==> #[trigger] is_digit(decimal_text(n)[i]),
        decimal_value(decimal_text(n)) == n,
    decreases n,
{
    if n < 10 {
        let t = decimal_text(n);
        assert(t.drop_last() =~= Seq::<char>::empty());
        assert(decimal_value(t.drop_last()) == 0);
        assert(digit_char(n) as u32 == n + 48);
        assert(t.last() == digit_char(n));
        assert(decimal_value(t) == n);
    } else {
        lemma_decimal_text(n / 10);
        let t = decimal_text(n);
        let prev = decimal_text(n / 10);
        assert(t.drop_last() =~= prev);
        assert(n == (n / 10) * 10 + n % 10) by (nonlinear_arith);
        assert(n % 10 < 10) by (nonlinear_arith);
        assert(digit_char(n % 10) as u32 == n % 10 + 48);
        assert(t.last() == digit_char(n % 10));
        assert(decimal_value(prev) == n / 10);
        assert(decimal_value(t) == decimal_value(prev) * 10 + (n % 10));
        assert forall|i: int| 0 <= i < t.len() implies #[trigger] is_digit(t[i]) by {
            if i < prev.len() {
                assert(t[i] == prev[i]);
            }
        }
    }
}

/// A run of digits holds no whitespace, no `,` and no `+`, is ASCII, and
/// each of its characters is its own upper-case form.
pub proof fn lemma_digit_char_facts(c: char)
    requires
        is_digit(c),
    ensures
        !unicode_white_space(c),
        c != ',',
        c != '+',
        (c as u32) < 128,
        ascii_upper(c) == c,
        c != 'B',
{
}

/// The first word of a text without whitespace is the whole text.
pub proof fn lemma_prefix_before_ws_all(t: Seq<char>)
    requires
        forall|i: int| 0 <= i < t.len() ==> !unicode_white_space(#[trigger] t[i]),
    ensures
        prefix_before_ws(t) == t,
    decreases t.len(),
{
    if t.len() > 0 {
        assert forall|i: int| 0 <= i < t.drop_first().len() implies !unicode_white_space(
            #[trigger] t.drop_first()[i],
        ) by {
            assert(t.drop_first()[i] == t[i + 1]);
        }
        lemma_prefix_before_ws_all(t.drop_first());
        assert(seq![t[0]] + t.drop_first() =~= t);
    }
}

/// Removing a character that does not occur changes nothing.
pub proof fn lemma_without_absent_char(t: Seq<char>, c: char)
    requires
        forall|i: int| 0 <= i < t.len() ==> #[trigger] t[i] != c,
    ensures
        without_char(t, c) == t,
    decreases t.len(),
{
    reveal(Seq::filter);
    if t.len() > 0 {
        assert forall|i: int| 0 <= i < t.drop_last().len() implies #[trigger] t.drop_last()[i]
            != c by {
            assert(t.drop_last()[i] == t[i]);
        }
        lemma_without_absent_char(t.drop_last(), c);
        assert(t.last() != c);
        assert(t.drop_last().push(t.last()) =~= t);
    }
}

} // verus!
