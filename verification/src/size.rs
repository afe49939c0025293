//! Reading human-readable sizes such as `1.5GB` or `12,345B`.
//!
//! The text handling is done here; turning a decimal number such as `1.5`
//! into bytes needs floating point and is supplied by the caller as `scale`.
use vstd::prelude::*;
use crate::text::{
    ascii_upper, is_ascii_text, is_digit, lemma_prefix_before_ws_all, lemma_trim_ws_fixed,
    lemma_without_absent_char, prefix_before_ws, trim_start_ws, unicode_white_space, chars_of, copy_range, first_word, first_word_of, parse_u64_chars, parse_u64_spec,
    remove_char, string_from_chars, to_uppercase, trim_bounds, trim_end_matches,
    trim_end_matches_len, trim_ws, uppercase, without_char, ends_with_at,
};

verus! {

/// One way to read a size token: `number` followed by a unit worth `multiplier` bytes.
#[derive(Debug)]
pub struct UnitAttempt {
    pub number: String,
    pub multiplier: u64,
}

/// The token a size is read from: the first word of `s`, without thousands
/// separators, in upper case.
pub open spec fn size_token_spec(s: Seq<char>) -> Seq<char> {
    uppercase(without_char(first_word(trim_ws(s)), ','))
}

/// Reading `token` as a number in `unit`, when it ends in `unit`: the number
/// is the token with every trailing repetition of the unit removed.
pub open spec fn unit_attempt(token: Seq<char>, unit: Seq<char>, multiplier: u64) -> Seq<
    (Seq<char>, u64),
> {
    if unit.is_suffix_of(token) {
        seq![(trim_end_matches(token, unit), multiplier)]
    } else {
        Seq::empty()
    }
}

/// The readings of `token` with a unit, tried in this order: TB, GB, MB, KB,
/// B (binary multiples).
pub open spec fn unit_attempts_spec(token: Seq<char>) -> Seq<(Seq<char>, u64)> {
    unit_attempt(token, seq!['T', 'B'], 1099511627776) + unit_attempt(
        token,
        seq!['G', 'B'],
        1073741824,
    ) + unit_attempt(token, seq!['M', 'B'], 1048576) + unit_attempt(token, seq!['K', 'B'], 1024)
        + unit_attempt(token, seq!['B'], 1)
}

/// `unit` is one of the units a size may carry, worth `m` bytes.
pub open spec fn is_unit(unit: Seq<char>, m: u64) -> bool {
    ||| unit == seq!['T', 'B'] && m == 1099511627776
    ||| unit == seq!['G', 'B'] && m == 1073741824
    ||| unit == seq!['M', 'B'] && m == 1048576
    ||| unit == seq!['K', 'B'] && m == 1024
    ||| unit == seq!['B'] && m == 1
}

/// The number and multiplier of each attempt.
pub open spec fn attempt_views(a: Seq<UnitAttempt>) -> Seq<(Seq<char>, u64)> {
    a.map_values(|x: UnitAttempt| (x.number@, x.multiplier))
}

/// A token without a usable unit is read as a plain byte count; 0 when it is not one.
pub open spec fn plain_size_spec(token: Seq<char>) -> u64 {
    match parse_u64_spec(token) {
        Some(v) => v,
        None => 0,
    }
}

/// The first answer that is not `None`.
pub open spec fn first_answer(answers: Seq<Option<u64>>) -> Option<u64>
    decreases answers.len(),
{
    if answers.len() == 0 {
        None
    } else if answers[0] is Some {
        answers[0]
    } else {
        first_answer(answers.drop_first())
    }
}

/// `answer` is what `scale` may return for a number reading as `number` and `multiplier`.
pub open spec fn scale_answers<F: Fn(&str, u64) -> Option<u64>>(
    scale: F,
    number: Seq<char>,
    multiplier: u64,
    answer: Option<u64>,
) -> bool {
    exists|n: &str| n@ == number && call_ensures(scale, (n, multiplier), answer)
}

/// The size read from `s`, given `answers[i]` for the `i`-th unit reading
/// (only answers up to the first `Some` count): 0 for a blank text, the first
/// successful unit reading, else the plain byte count.
pub open spec fn human_size(s: Seq<char>, answers: Seq<Option<u64>>) -> u64 {
    if size_token_spec(s).len() == 0 {
        0
    } else {
        match first_answer(answers) {
            Some(v) => v,
            None => plain_size_spec(size_token_spec(s)),
        }
    }
}

/// `r` is the size read from `s` when `scale` gives `answers` to the unit
/// readings of `s`, of which it was asked each up to the first `Some`.
pub open spec fn read_by<F: Fn(&str, u64) -> Option<u64>>(
    scale: F,
    s: Seq<char>,
    answers: Seq<Option<u64>>,
    r: u64,
) -> bool {
    let attempts = unit_attempts_spec(size_token_spec(s));
    &&& answers.len() == attempts.len()
    &&& forall|i: int|
        0 <= i < answers.len() && (forall|j: int| 0 <= j < i ==> #[trigger] answers[j] is None)
            ==> scale_answers(scale, attempts[i].0, attempts[i].1, #[trigger] answers[i])
    &&& r == human_size(s, answers)
}

/// `r` is a size that `s` reads as, for some answers of `scale` to its unit readings.
pub open spec fn reads_as<F: Fn(&str, u64) -> Option<u64>>(scale: F, s: Seq<char>, r: u64) -> bool {
    exists|answers: Seq<Option<u64>>| #[trigger] read_by(scale, s, answers, r)
}

/// The token a size is read from: the first word of `s`, without `,`, in upper case.
pub fn size_token(s: &str) -> (r: String)
    ensures
        r@ == size_token_spec(s@),
{
    let cs = chars_of(s);
    let (start, end) = trim_bounds(cs.as_slice());
    let trimmed = copy_range(cs.as_slice(), start, end);
    let word = first_word_of(trimmed.as_slice());
    let digits = remove_char(word.as_slice(), ',');
    let joined = string_from_chars(digits.as_slice());
    to_uppercase(joined.as_str())
}

/// Appends the reading of `token` in `unit`, when `token` ends in it.
fn try_unit(token: &Vec<char>, unit: Vec<char>, multiplier: u64, out: &mut Vec<UnitAttempt>)
    requires
        unit@.len() > 0,
    ensures
        attempt_views(final(out)@) == attempt_views(old(out)@) + unit_attempt(
            token@,
            unit@,
            multiplier,
        ),
{
    let n = token.len();
    assert(token@.subrange(0, n as int) =~= token@);
    if ends_with_at(token.as_slice(), n, unit.as_slice()) {
        let keep = trim_end_matches_len(token.as_slice(), unit.as_slice());
        let number_chars = copy_range(token.as_slice(), 0, keep);
        let number = string_from_chars(number_chars.as_slice());
        out.push(UnitAttempt { number, multiplier });
        assert(attempt_views(final(out)@) =~= attempt_views(old(out)@) + unit_attempt(
            token@,
            unit@,
            multiplier,
        ));
    } else {
        assert(attempt_views(final(out)@) =~= attempt_views(old(out)@) + unit_attempt(
            token@,
            unit@,
            multiplier,
        ));
    }
}

/// The readings of `token` with a unit, in the order they are tried.
pub fn unit_attempts(token: &str) -> (r: Vec<UnitAttempt>)
    ensures
        attempt_views(r@) == unit_attempts_spec(token@),
{
    let t = chars_of(token);
    let mut out: Vec<UnitAttempt> = Vec::new();
    assert(attempt_views(out@) =~= Seq::<(Seq<char>, u64)>::empty());
    try_unit(&t, vec!['T', 'B'], 1024 * 1024 * 1024 * 1024, &mut out);
    try_unit(&t, vec!['G', 'B'], 1024 * 1024 * 1024, &mut out);
    try_unit(&t, vec!['M', 'B'], 1024 * 1024, &mut out);
    try_unit(&t, vec!['K', 'B'], 1024, &mut out);
    try_unit(&t, vec!['B'], 1, &mut out);
    assert(attempt_views(out@) =~= unit_attempts_spec(token@));
    out
}

/// A token read as a plain byte count (`u64` syntax); 0 when it is not one.
pub fn plain_size(token: &str) -> (r: u64)
    ensures
        r == plain_size_spec(token@),
{
    let cs = chars_of(token);
    match parse_u64_chars(cs.as_slice()) {
        Some(v) => v,
        None => 0,
    }
}

/// Reads a human-readable size such as `1.5GB`, `512 MB (12%)` or `12,345`
/// into bytes.
///
/// The first word of `s`, without `,` and in upper case, is the token. A blank
/// token is 0. Otherwise the units TB, GB, MB, KB and B (binary multiples) are
/// tried in that order: when the token ends in the unit, `scale` is asked for
/// the bytes in the number before it, and its first answer is the result.
/// When no unit gives an answer, the token is read as a plain byte count
/// (0 when it is not one).
///
/// `scale(number, multiplier)` answers `None` when `number` is not a decimal
/// number, else the bytes in `number` units of `multiplier` bytes.
pub fn parse_human_size<F: Fn(&str, u64) -> Option<u64>>(s: &str, scale: &F) -> (r: u64)
    requires
        forall|n: &str, m: u64| call_requires(*scale, (n, m)),
    ensures
        reads_as(*scale, s@, r),
{
    let token = size_token(s);
    let attempts = unit_attempts(token.as_str());
    let ghost specs = unit_attempts_spec(size_token_spec(s@));
    assert(attempt_views(attempts@) == specs);
    assert(attempts@.len() == specs.len());
    if token.as_str().is_empty() {
        let ghost answers = Seq::new(specs.len(), |i: int| None::<u64>);
        assert(read_by(*scale, s@, answers, 0));
        return 0;
    }
    let mut i: usize = 0;
    let ghost mut tried: Seq<Option<u64>> = Seq::empty();
    while i < attempts.len()
        invariant
            i <= attempts@.len() == specs.len(),
            attempt_views(attempts@) == specs,
            specs == unit_attempts_spec(size_token_spec(s@)),
            size_token_spec(s@).len() != 0,
            token@ == size_token_spec(s@),
            forall|n: &str, m: u64| call_requires(*scale, (n, m)),
            tried.len() == i,
            forall|j: int| 0 <= j < i ==> #[trigger] tried[j] is None,
            forall|j: int|
                0 <= j < i ==> scale_answers(*scale, specs[j].0, specs[j].1, #[trigger] tried[j]),
        decreases attempts.len() - i,
    {
        let number = attempts[i].number.as_str();
        let answer = scale(number, attempts[i].multiplier);
        assert(specs[i as int] == (attempts@[i as int].number@, attempts@[i as int].multiplier));
        assert(scale_answers(*scale, specs[i as int].0, specs[i as int].1, answer));
        match answer {
            Some(v) => {
                let ghost answers = tried.push(answer) + Seq::new(
                    (specs.len() - i - 1) as nat,
                    |k: int| None::<u64>,
                );
                proof {
                    lemma_first_answer_at(answers, i as int);
                    assert(answers[i as int] == answer);
                    assert forall|k: int|
                        0 <= k < answers.len() && (forall|j: int|
                            0 <= j < k ==> #[trigger] answers[j] is None) implies scale_answers(
                        *scale,
                        specs[k].0,
                        specs[k].1,
                        #[trigger] answers[k],
                    ) by {
                        if k > i {
                            assert(answers[i as int] is Some);
                        } else if k < i {
                            assert(answers[k] == tried[k]);
                        }
                    }
                    assert(read_by(*scale, s@, answers, v));
                }
                return v;
            },
            None => {
                proof {
                    tried = tried.push(answer);
                }
            },
        }
        i = i + 1;
    }
    proof {
        lemma_no_answer(tried);
    }
    let r = plain_size(token.as_str());
    assert(read_by(*scale, s@, tried, r));
    r
}

/// When the first `Some` is at `i`, it is the first answer.
proof fn lemma_first_answer_at(answers: Seq<Option<u64>>, i: int)
    requires
        0 <= i < answers.len(),
        answers[i] is Some,
        forall|j: int| 0 <= j < i ==> #[trigger] answers[j] is None,
    ensures
        first_answer(answers) == answers[i],
    decreases i,
{
    if i > 0 {
        lemma_first_answer_at(answers.drop_first(), i - 1);
    }
}

/// Without any `Some`, there is no first answer.
proof fn lemma_no_answer(answers: Seq<Option<u64>>)
    requires
        forall|j: int| 0 <= j < answers.len() ==> #[trigger] answers[j] is None,
    ensures
        first_answer(answers) is None,
    decreases answers.len(),
{
    if answers.len() > 0 {
        lemma_no_answer(answers.drop_first());
    }
}

/// A text of digits and upper-case ASCII letters is its own size token.
pub proof fn lemma_plain_token(t: Seq<char>)
    requires
        t.len() > 0,
        forall|i: int| 0 <= i < t.len() ==> is_digit(#[trigger] t[i]) || 'A' <= t[i] <= 'Z',
    ensures
        size_token_spec(t) == t,
{
    assert forall|i: int| 0 <= i < t.len() implies !unicode_white_space(#[trigger] t[i]) && t[i]
        != ',' && (t[i] as u32) < 128 && ascii_upper(t[i]) == t[i] by {
        assert(is_digit(t[i]) || 'A' <= t[i] <= 'Z');
    }
    assert(!unicode_white_space(t[0]));
    assert(!unicode_white_space(t[t.len() - 1]));
    lemma_trim_ws_fixed(t);
    assert(trim_start_ws(t) == t);
    lemma_prefix_before_ws_all(t);
    lemma_without_absent_char(t, ',');
    assert(is_ascii_text(t));
    assert(t.map_values(|c: char| ascii_upper(c)) =~= t);
}

/// A run of digits has no reading with a unit.
pub proof fn lemma_digits_have_no_unit(t: Seq<char>)
    requires
        t.len() > 0,
        forall|i: int| 0 <= i < t.len() ==> #[trigger] is_digit(t[i]),
    ensures
        unit_attempts_spec(t).len() == 0,
{
    let last = t[t.len() - 1];
    assert(is_digit(last));
    assert(!seq!['B'].is_suffix_of(t)) by {
        if seq!['B'].is_suffix_of(t) {
            assert(t.subrange(t.len() - 1, t.len() as int)[0] == last);
        }
    }
    assert(!seq!['K', 'B'].is_suffix_of(t)) by {
        if seq!['K', 'B'].is_suffix_of(t) {
            assert(t.subrange(t.len() - 2, t.len() as int)[1] == last);
        }
    }
    assert(!seq!['M', 'B'].is_suffix_of(t)) by {
        if seq!['M', 'B'].is_suffix_of(t) {
            assert(t.subrange(t.len() - 2, t.len() as int)[1] == last);
        }
    }
    assert(!seq!['G', 'B'].is_suffix_of(t)) by {
        if seq!['G', 'B'].is_suffix_of(t) {
            assert(t.subrange(t.len() - 2, t.len() as int)[1] == last);
        }
    }
    assert(!seq!['T', 'B'].is_suffix_of(t)) by {
        if seq!['T', 'B'].is_suffix_of(t) {
            assert(t.subrange(t.len() - 2, t.len() as int)[1] == last);
        }
    }
}

/// Removing a unit from the end of a run of digits followed by it leaves the digits.
proof fn lemma_trim_unit(ds: Seq<char>, unit: Seq<char>)
    requires
        ds.len() > 0,
        forall|i: int| 0 <= i < ds.len() ==> #[trigger] is_digit(ds[i]),
        unit.len() > 0,
        unit.last() == 'B',
    ensures
        trim_end_matches(ds + unit, unit) == ds,
{
    let t = ds + unit;
    assert(unit.is_suffix_of(t)) by {
        assert(t.subrange(t.len() - unit.len(), t.len() as int) =~= unit);
    }
    assert(t.subrange(0, t.len() - unit.len()) =~= ds);
    assert(is_digit(ds[ds.len() - 1]));
    assert(!unit.is_suffix_of(ds)) by {
        if unit.is_suffix_of(ds) {
            assert(ds.subrange(ds.len() - unit.len(), ds.len() as int)[unit.len() - 1] == ds[ds.len()
                - 1]);
        }
    }
    assert(trim_end_matches(ds, unit) == ds);
    assert(trim_end_matches(t, unit) == trim_end_matches(t.subrange(0, t.len() - unit.len()), unit));
}

/// A run of digits followed by a unit is first read in that unit, as the digits.
pub proof fn lemma_first_attempt(ds: Seq<char>, unit: Seq<char>, m: u64)
    requires
        ds.len() > 0,
        forall|i: int| 0 <= i < ds.len() ==> #[trigger] is_digit(ds[i]),
        is_unit(unit, m),
    ensures
        unit_attempts_spec(ds + unit).len() > 0,
        unit_attempts_spec(ds + unit)[0] == (ds, m),
{
    let t = ds + unit;
    let n = t.len();
    assert(unit.last() == 'B');
    lemma_trim_unit(ds, unit);
    let before = t[n - 2];
    if unit.len() == 1 {
        assert(before == ds[ds.len() - 1]);
        assert(is_digit(before));
    } else {
        assert(before == unit[0]);
    }
    assert(t[n - 1] == 'B');
    assert(unit.is_suffix_of(t)) by {
        assert(t.subrange(n - unit.len(), n as int) =~= unit);
    }
    assert(seq!['T', 'B'].is_suffix_of(t) ==> before == 'T') by {
        if seq!['T', 'B'].is_suffix_of(t) {
            assert(t.subrange(n - 2, n as int)[0] == before);
        }
    }
    assert(seq!['G', 'B'].is_suffix_of(t) ==> before == 'G') by {
        if seq!['G', 'B'].is_suffix_of(t) {
            assert(t.subrange(n - 2, n as int)[0] == before);
        }
    }
    assert(seq!['M', 'B'].is_suffix_of(t) ==> before == 'M') by {
        if seq!['M', 'B'].is_suffix_of(t) {
            assert(t.subrange(n - 2, n as int)[0] == before);
        }
    }
    assert(seq!['K', 'B'].is_suffix_of(t) ==> before == 'K') by {
        if seq!['K', 'B'].is_suffix_of(t) {
            assert(t.subrange(n - 2, n as int)[0] == before);
        }
    }
}

} // verus!
