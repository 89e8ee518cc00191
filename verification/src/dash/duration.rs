//! `xs:duration` values as they appear in MPD manifests (`PT10S`, `PT0H0M30.030S`, `P1DT2H`).
//!
//! The lexical form is the ISO 8601 extended format `PnYnMnWnDTnHnMnS`, and the
//! whole text must have it. Every component is optional, only the seconds may
//! carry a fraction (introduced by `.` or `,`) of which the first nine digits are
//! kept, and a month counts as 30 days, a year as 365 days. Negative durations,
//! and fractions of other components (`PT2.3H`), are refused.

use vstd::prelude::*;
use crate::text::{
    all_digits, chars_of, decimal, decimal_string, digit_char, digit_value, digits_value, extend_chars,
    is_digit, lemma_digits_value_prefix_le, lemma_digits_value_snoc, string_of, zero_pad,
    zero_pad_chars,
};

verus! {

/// A non-negative span of time: whole seconds and the nanoseconds beyond them.
#[derive(Debug, Clone, Copy, PartialEq, Eq, Structural)]
pub struct XsDuration {
    pub secs: u64,
    pub nanos: u32,
}

/// Why a text is not an acceptable `xs:duration`.
#[derive(Debug, Clone, Copy, PartialEq, Eq, Structural)]
pub enum DurationError {
    /// The text does not start with an (optionally signed) `P`.
    NoMatch,
    /// Neither a date component nor the time designator `T` follows the `P`.
    Empty,
    /// Text that is not part of the duration follows it (such as a fraction
    /// of a component other than the seconds).
    Trailing,
    /// The duration carries a leading `-`.
    Negative,
}

/// The end of the run of ASCII digits that starts at `i`.
pub open spec fn run_end(s: Seq<char>, i: int) -> int
    decreases s.len() - i,
{
    if 0 <= i < s.len() && is_digit(s[i]) {
        run_end(s, i + 1)
    } else {
        i
    }
}

/// A component `<digits><unit>` at `i`: the end of its digits, if it is there.
pub open spec fn unit_at(s: Seq<char>, i: int, unit: char) -> Option<int> {
    let j = run_end(s, i);
    if j > i && j < s.len() && s[j] == unit {
        Some(j)
    } else {
        None
    }
}

/// The index after an optional component found by `unit_at`.
pub open spec fn after(found: Option<int>, i: int) -> int {
    match found {
        Some(j) => j + 1,
        None => i,
    }
}

/// The seconds component `<digits>[(.|,)<digits>]S` at `i`:
/// the end of the whole digits and, when there is a fraction, the end of its digits.
pub open spec fn seconds_at(s: Seq<char>, i: int) -> Option<(int, Option<int>)> {
    let j = run_end(s, i);
    if j > i && j < s.len() {
        if s[j] == 'S' {
            Some((j, None))
        } else if (s[j] == '.' || s[j] == ',') && run_end(s, j + 1) > j + 1 && run_end(s, j + 1)
            < s.len() && s[run_end(s, j + 1)] == 'S' {
            Some((j, Some(run_end(s, j + 1))))
        } else {
            None
        }
    } else {
        None
    }
}

/// Where each component of a matched duration lies: for a component, the
/// start and the end of its digits; and where the match ends.
pub struct XsMatch {
    pub negative: bool,
    pub years: Option<(int, int)>,
    pub months: Option<(int, int)>,
    pub weeks: Option<(int, int)>,
    pub days: Option<(int, int)>,
    pub hastime: bool,
    pub hours: Option<(int, int)>,
    pub minutes: Option<(int, int)>,
    pub seconds: Option<(int, int)>,
    pub fraction: Option<(int, int)>,
    pub end: int,
}

pub open spec fn span(found: Option<int>, i: int) -> Option<(int, int)> {
    match found {
        Some(j) => Some((i, j)),
        None => None,
    }
}

/// The components of the duration that starts `s`, or `None` when `s` does not
/// start with `P`, `+P` or `-P`.
pub open spec fn xs_match(s: Seq<char>) -> Option<XsMatch> {
    let signed = s.len() > 0 && (s[0] == '+' || s[0] == '-');
    let p = if signed { 1int } else { 0int };
    if !(p < s.len() && s[p] == 'P') {
        None
    } else {
        let i0 = p + 1;
        let y = unit_at(s, i0, 'Y');
        let i1 = after(y, i0);
        let mo = unit_at(s, i1, 'M');
        let i2 = after(mo, i1);
        let w = unit_at(s, i2, 'W');
        let i3 = after(w, i2);
        let d = unit_at(s, i3, 'D');
        let i4 = after(d, i3);
        let hastime = i4 < s.len() && s[i4] == 'T';
        let t0 = i4 + 1;
        let h = unit_at(s, t0, 'H');
        let t1 = after(h, t0);
        let mi = unit_at(s, t1, 'M');
        let t2 = after(mi, t1);
        let sec = seconds_at(s, t2);
        Some(
            XsMatch {
                negative: signed && s[0] == '-',
                years: span(y, i0),
                months: span(mo, i1),
                weeks: span(w, i2),
                days: span(d, i3),
                hastime,
                hours: if hastime { span(h, t0) } else { None },
                minutes: if hastime { span(mi, t1) } else { None },
                seconds: if hastime {
                    match sec {
                        Some((j, _)) => Some((t2, j)),
                        None => None,
                    }
                } else {
                    None
                },
                fraction: if hastime {
                    match sec {
                        Some((j, Some(k))) => Some((j + 1, k)),
                        _ => None,
                    }
                } else {
                    None
                },
                end: if !hastime {
                    i4
                } else {
                    match sec {
                        Some((j, None)) => j + 1,
                        Some((_, Some(k))) => k + 1,
                        None => t2,
                    }
                },
            },
        )
    }
}

/// The number written by the digits of a component, 0 when it is absent.
pub open spec fn component(s: Seq<char>, c: Option<(int, int)>) -> nat {
    match c {
        Some((i, j)) => digits_value(s.subrange(i, j)),
        None => 0,
    }
}

/// The whole seconds of a matched duration.
pub open spec fn total_seconds(s: Seq<char>, m: XsMatch) -> nat {
    component(s, m.seconds) + component(s, m.minutes) * 60 + component(s, m.hours) * 3600
        + component(s, m.days) * 86400 + component(s, m.weeks) * 604800 + component(s, m.months)
        * 2592000 + component(s, m.years) * 31536000
}

pub open spec fn pow10(n: nat) -> nat
    decreases n,
{
    if n == 0 {
        1
    } else {
        10 * pow10((n - 1) as nat)
    }
}

/// The nanoseconds written by the digits of a fraction: its first nine digits,
/// padded on the right with zeros.
pub open spec fn fraction_nanos(digits: Seq<char>) -> nat {
    let kept = if digits.len() > 9 {
        digits.subrange(0, 9)
    } else {
        digits
    };
    digits_value(kept) * pow10((9 - kept.len()) as nat)
}

/// A fraction of at most nine digits counts in steps of `10^-len` seconds:
/// its nanoseconds times `10^len` are its value times a billion; equally, they
/// are the value of the digits padded on the right with zeros to nine.
pub proof fn lemma_fraction_nanos_scale(digits: Seq<char>)
    requires
        digits.len() <= 9,
    ensures
        fraction_nanos(digits) * pow10(digits.len()) == digits_value(digits) * 1_000_000_000,
        fraction_nanos(digits) == digits_value(
            digits + Seq::new((9 - digits.len()) as nat, |i: int| '0'),
        ),
{
    let len = digits.len();
    let pad = (9 - len) as nat;
    lemma_pow10_add(pad, len);
    reveal_with_fuel(pow10, 10);
    assert(pow10(9) == 1_000_000_000);
    let v = digits_value(digits);
    assert(v * pow10(pad) * pow10(len) == v * (pow10(pad) * pow10(len))) by (nonlinear_arith);
    lemma_trailing_zeros_value(digits, pad);
}

/// Only the first nine digits of a fraction count.
pub proof fn lemma_fraction_nanos_nine_digits(digits: Seq<char>)
    requires
        digits.len() > 9,
    ensures
        fraction_nanos(digits) == fraction_nanos(digits.subrange(0, 9)),
{
}

/// Appending `k` zeros multiplies the value of digits by `10^k`.
proof fn lemma_trailing_zeros_value(s: Seq<char>, k: nat)
    ensures
        digits_value(s + Seq::new(k, |i: int| '0')) == digits_value(s) * pow10(k),
    decreases k,
{
    let z = Seq::new(k, |i: int| '0');
    if k == 0 {
        assert(s + z =~= s);
        assert(pow10(0) == 1);
    } else {
        let km1 = (k - 1) as nat;
        lemma_trailing_zeros_value(s, km1);
        assert((s + z).drop_last() =~= s + Seq::new(km1, |i: int| '0'));
        assert((s + z).last() == '0');
        assert(digit_value('0') == 0);
        assert(digits_value(s + z) == digits_value(s + Seq::new(km1, |i: int| '0')) * 10);
        assert(pow10(k) == 10 * pow10(km1));
        let v = digits_value(s);
        assert(v * pow10(km1) * 10 == v * pow10(k)) by (nonlinear_arith)
            requires
                pow10(k) == 10 * pow10(km1),
        ;
    }
}

/// Whether a match has neither a date component nor the time designator.
pub open spec fn is_empty_match(m: XsMatch) -> bool {
    !m.hastime && m.years is None && m.months is None && m.weeks is None && m.days is None
}

/// The whole seconds that the text denotes (0 where it is no duration);
/// the computation needs them to fit in a `u64`.
pub open spec fn xs_seconds(s: Seq<char>) -> nat {
    match xs_match(s) {
        Some(m) => if m.end != s.len() || is_empty_match(m) {
            0
        } else {
            total_seconds(s, m)
        },
        None => 0,
    }
}

/// What parsing `s` gives.
pub open spec fn xs_duration_of(s: Seq<char>) -> Result<(nat, nat), DurationError> {
    match xs_match(s) {
        None => Err(DurationError::NoMatch),
        Some(m) => if m.end != s.len() {
            Err(DurationError::Trailing)
        } else if is_empty_match(m) {
            Err(DurationError::Empty)
        } else if m.negative {
            Err(DurationError::Negative)
        } else {
            Ok(
                (
                    total_seconds(s, m),
                    match m.fraction {
                        Some((i, j)) => fraction_nanos(s.subrange(i, j)),
                        None => 0,
                    },
                ),
            )
        },
    }
}

// ---------------------------------------------------------------------------
// lemmas

proof fn lemma_run_end(s: Seq<char>, i: int)
    requires
        0 <= i <= s.len(),
    ensures
        i <= run_end(s, i) <= s.len(),
        forall|k: int| i <= k < run_end(s, i) ==> is_digit(#[trigger] s[k]),
        run_end(s, i) < s.len() ==> !is_digit(s[run_end(s, i)]),
    decreases s.len() - i,
{
    if i < s.len() && is_digit(s[i]) {
        lemma_run_end(s, i + 1);
    }
}

proof fn lemma_pow10_bound(n: nat)
    requires
        n <= 9,
    ensures
        pow10(n) <= 1_000_000_000,
        pow10(n) >= 1,
    decreases n,
{
    reveal_with_fuel(pow10, 10);
    assert(n == 0 || n == 1 || n == 2 || n == 3 || n == 4 || n == 5 || n == 6 || n == 7 || n
        == 8 || n == 9);
}

// ---------------------------------------------------------------------------
// executable parts

fn run_end_of(v: &Vec<char>, i: usize) -> (j: usize)
    requires
        i <= v.len(),
    ensures
        j == run_end(v@, i as int),
        i <= j <= v.len(),
{
    let mut j = i;
    proof {
        lemma_run_end(v@, i as int);
    }
    while j < v.len() && '0' <= v[j] && v[j] <= '9'
        invariant
            i <= j <= v.len(),
            run_end(v@, j as int) == run_end(v@, i as int),
        decreases v.len() - j,
    {
        j = j + 1;
    }
    j
}

fn unit_of(v: &Vec<char>, i: usize, unit: char) -> (r: Option<usize>)
    requires
        i <= v.len(),
    ensures
        match r {
            Some(j) => unit_at(v@, i as int, unit) == Some(j as int),
            None => unit_at(v@, i as int, unit) is None,
        },
        r matches Some(j) ==> i < j < v.len(),
{
    let j = run_end_of(v, i);
    if j > i && j < v.len() && v[j] == unit {
        Some(j)
    } else {
        None
    }
}

fn seconds_of(v: &Vec<char>, i: usize) -> (r: Option<(usize, Option<usize>)>)
    requires
        i <= v.len(),
    ensures
        match r {
            Some((j, None)) => seconds_at(v@, i as int) == Some((j as int, None::<int>)),
            Some((j, Some(k))) => seconds_at(v@, i as int) == Some((j as int, Some(k as int))),
            None => seconds_at(v@, i as int) is None,
        },
        r matches Some((j, f)) ==> i < j < v.len() && (f matches Some(k) ==> j + 1 < k < v.len()),
{
    let j = run_end_of(v, i);
    if j > i && j < v.len() {
        if v[j] == 'S' {
            Some((j, None))
        } else if v[j] == '.' || v[j] == ',' {
            let k = run_end_of(v, j + 1);
            if k > j + 1 && k < v.len() && v[k] == 'S' {
                Some((j, Some(k)))
            } else {
                None
            }
        } else {
            None
        }
    } else {
        None
    }
}

/// The value of the digits `v[i..j]`, which fits in a `u64`.
fn digits_u64(v: &Vec<char>, i: usize, j: usize) -> (n: u64)
    requires
        i <= j <= v.len(),
        forall|k: int| i <= k < j ==> is_digit(#[trigger] v@[k]),
        digits_value(v@.subrange(i as int, j as int)) <= u64::MAX,
    ensures
        n == digits_value(v@.subrange(i as int, j as int)),
{
    let mut n: u64 = 0;
    let mut k = i;
    assert(v@.subrange(i as int, i as int) =~= Seq::<char>::empty());
    while k < j
        invariant
            i <= k <= j <= v.len(),
            forall|m: int| i <= m < j ==> is_digit(#[trigger] v@[m]),
            digits_value(v@.subrange(i as int, j as int)) <= u64::MAX,
            n == digits_value(v@.subrange(i as int, k as int)),
        decreases j - k,
    {
        proof {
            lemma_digits_value_snoc(v@, i as int, k + 1);
            lemma_digits_value_prefix_le(v@, i as int, k + 1, j as int);
        }
        let d = (v[k] as u32 - '0' as u32) as u64;
        n = n * 10 + d;
        k = k + 1;
    }
    n
}

/// Where the components of a matched duration lie in the text (exec form of `XsMatch`).
struct MatchPos {
    negative: bool,
    years: Option<(usize, usize)>,
    months: Option<(usize, usize)>,
    weeks: Option<(usize, usize)>,
    days: Option<(usize, usize)>,
    hastime: bool,
    hours: Option<(usize, usize)>,
    minutes: Option<(usize, usize)>,
    seconds: Option<(usize, usize)>,
    fraction: Option<(usize, usize)>,
    end: usize,
}

spec fn span_view(o: Option<(usize, usize)>) -> Option<(int, int)> {
    match o {
        Some((i, j)) => Some((i as int, j as int)),
        None => None,
    }
}

/// Whether a span lies in `s` and holds only digits.
spec fn digit_span(s: Seq<char>, o: Option<(usize, usize)>) -> bool {
    o matches Some((i, j)) ==> (i <= j <= s.len() && forall|k: int|
        i <= k < j ==> is_digit(#[trigger] s[k]))
}

impl MatchPos {
    spec fn view(self) -> XsMatch {
        XsMatch {
            negative: self.negative,
            years: span_view(self.years),
            months: span_view(self.months),
            weeks: span_view(self.weeks),
            days: span_view(self.days),
            hastime: self.hastime,
            hours: span_view(self.hours),
            minutes: span_view(self.minutes),
            seconds: span_view(self.seconds),
            fraction: span_view(self.fraction),
            end: self.end as int,
        }
    }

    spec fn spans_ok(self, s: Seq<char>) -> bool {
        &&& digit_span(s, self.years)
        &&& digit_span(s, self.months)
        &&& digit_span(s, self.weeks)
        &&& digit_span(s, self.days)
        &&& digit_span(s, self.hours)
        &&& digit_span(s, self.minutes)
        &&& digit_span(s, self.seconds)
        &&& digit_span(s, self.fraction)
    }
}

fn unit_span(v: &Vec<char>, i: usize, unit: char) -> (r: (Option<(usize, usize)>, usize))
    requires
        i <= v.len(),
    ensures
        span_view(r.0) == span(unit_at(v@, i as int, unit), i as int),
        r.1 == after(unit_at(v@, i as int, unit), i as int),
        r.1 <= v.len(),
        digit_span(v@, r.0),
{
    proof {
        lemma_run_end(v@, i as int);
    }
    match unit_of(v, i, unit) {
        Some(j) => (Some((i, j)), j + 1),
        None => (None, i),
    }
}

fn match_positions(v: &Vec<char>) -> (r: Option<MatchPos>)
    ensures
        match r {
            Some(m) => xs_match(v@) == Some(m.view()) && m.spans_ok(v@),
            None => xs_match(v@) is None,
        },
{
    let signed = v.len() > 0 && (v[0] == '+' || v[0] == '-');
    let p: usize = if signed {
        1
    } else {
        0
    };
    if !(p < v.len() && v[p] == 'P') {
        return None;
    }
    let i0 = p + 1;
    let (years, i1) = unit_span(v, i0, 'Y');
    let (months, i2) = unit_span(v, i1, 'M');
    let (weeks, i3) = unit_span(v, i2, 'W');
    let (days, i4) = unit_span(v, i3, 'D');
    let hastime = i4 < v.len() && v[i4] == 'T';
    if !hastime {
        return Some(
            MatchPos {
                negative: signed && v[0] == '-',
                years,
                months,
                weeks,
                days,
                hastime,
                hours: None,
                minutes: None,
                seconds: None,
                fraction: None,
                end: i4,
            },
        );
    }
    let t0 = i4 + 1;
    let (hours, t1) = unit_span(v, t0, 'H');
    let (minutes, t2) = unit_span(v, t1, 'M');
    proof {
        lemma_run_end(v@, t2 as int);
    }
    let sec = seconds_of(v, t2);
    let (seconds, fraction, end) = match sec {
        Some((j, None)) => (Some((t2, j)), None, j + 1),
        Some((j, Some(k))) => {
            proof {
                lemma_run_end(v@, j + 1);
            }
            (Some((t2, j)), Some((j + 1, k)), k + 1)
        },
        None => (None, None, t2),
    };
    Some(
        MatchPos {
            negative: signed && v[0] == '-',
            years,
            months,
            weeks,
            days,
            hastime,
            hours,
            minutes,
            seconds,
            fraction,
            end,
        },
    )
}

/// The value of a component (0 when absent).
fn component_u64(v: &Vec<char>, c: Option<(usize, usize)>) -> (n: u64)
    requires
        digit_span(v@, c),
        component(v@, span_view(c)) <= u64::MAX,
    ensures
        n == component(v@, span_view(c)),
{
    match c {
        Some((i, j)) => digits_u64(v, i, j),
        None => 0,
    }
}

fn total_seconds_of(v: &Vec<char>, m: &MatchPos) -> (n: u64)
    requires
        m.spans_ok(v@),
        total_seconds(v@, m.view()) <= u64::MAX,
    ensures
        n == total_seconds(v@, m.view()),
{
    let ghost mv = m.view();
    proof {
        lemma_parts_bounded(v@, mv);
    }
    let s = component_u64(v, m.seconds);
    let mi = component_u64(v, m.minutes);
    let h = component_u64(v, m.hours);
    let d = component_u64(v, m.days);
    let w = component_u64(v, m.weeks);
    let mo = component_u64(v, m.months);
    let y = component_u64(v, m.years);
    s + mi * 60 + h * 3600 + d * 86400 + w * 604800 + mo * 2592000 + y * 31536000
}

/// The nanoseconds written by the fraction digits `v[i..j]`.
fn fraction_nanos_of(v: &Vec<char>, i: usize, j: usize) -> (n: u32)
    requires
        i <= j <= v.len(),
        forall|k: int| i <= k < j ==> is_digit(#[trigger] v@[k]),
    ensures
        n == fraction_nanos(v@.subrange(i as int, j as int)),
{
    let end = if j - i > 9 {
        i + 9
    } else {
        j
    };
    let len = end - i;
    proof {
        if j - i > 9 {
            assert(v@.subrange(i as int, j as int).subrange(0, 9) =~= v@.subrange(
                i as int,
                i + 9,
            ));
        }
        lemma_digits_value_bound9(v@, i as int, end as int);
        lemma_pow10_bound(len as nat);
    }
    let kept = digits_u64(v, i, end);
    let mut scale: u64 = 1;
    let mut c: usize = 0;
    while c < 9 - len
        invariant
            len <= 9,
            c <= 9 - len,
            scale == pow10(c as nat),
        decreases 9 - len - c,
    {
        proof {
            lemma_pow10_bound((c + 1) as nat);
        }
        scale = scale * 10;
        c = c + 1;
    }
    proof {
        lemma_nanos_bound(kept as nat, len as nat);
    }
    (kept * scale) as u32
}

/// The value of the digits `v[i..j]`, or `None` when it does not fit in a `u64`.
fn digits_checked(v: &Vec<char>, i: usize, j: usize) -> (r: Option<u64>)
    requires
        i <= j <= v.len(),
        forall|k: int| i <= k < j ==> is_digit(#[trigger] v@[k]),
    ensures
        match r {
            Some(n) => n == digits_value(v@.subrange(i as int, j as int)),
            None => digits_value(v@.subrange(i as int, j as int)) > u64::MAX,
        },
{
    let mut n: u64 = 0;
    let mut k = i;
    assert(v@.subrange(i as int, i as int) =~= Seq::<char>::empty());
    while k < j
        invariant
            i <= k <= j <= v.len(),
            forall|m: int| i <= m < j ==> is_digit(#[trigger] v@[m]),
            n == digits_value(v@.subrange(i as int, k as int)),
        decreases j - k,
    {
        proof {
            lemma_digits_value_snoc(v@, i as int, k + 1);
            lemma_digits_value_prefix_le(v@, i as int, k + 1, j as int);
        }
        let d = (v[k] as u32 - '0' as u32) as u64;
        if n > (u64::MAX - d) / 10 {
            assert(n * 10 + d > u64::MAX) by (nonlinear_arith)
                requires
                    n > (u64::MAX - d) / 10,
                    d <= 9,
            {}
            return None;
        }
        assert(n * 10 + d <= u64::MAX) by (nonlinear_arith)
            requires
                n <= (u64::MAX - d) / 10,
                d <= 9,
        {}
        n = n * 10 + d;
        k = k + 1;
    }
    Some(n)
}

/// The value of a component (0 when absent), or `None` when it does not fit in a `u64`.
fn component_checked(v: &Vec<char>, c: Option<(usize, usize)>) -> (r: Option<u64>)
    requires
        digit_span(v@, c),
    ensures
        match r {
            Some(n) => n == component(v@, span_view(c)),
            None => component(v@, span_view(c)) > u64::MAX,
        },
{
    match c {
        Some((i, j)) => digits_checked(v, i, j),
        None => Some(0),
    }
}

/// Whether the whole seconds that `s` denotes fit in a `u64`, as
/// `parse_xs_duration` needs.
pub fn xs_duration_fits(s: &str) -> (b: bool)
    ensures
        b == (xs_seconds(s@) <= u64::MAX),
{
    let v = chars_of(s);
    let m = match match_positions(&v) {
        Some(m) => m,
        None => {
            return true;
        },
    };
    if m.end != v.len() || (!m.hastime && m.years.is_none() && m.months.is_none()
        && m.weeks.is_none() && m.days.is_none()) {
        return true;
    }
    let ghost mv = m.view();
    let sec = match component_checked(&v, m.seconds) {
        Some(n) => n,
        None => return false,
    };
    let mi = match component_checked(&v, m.minutes) {
        Some(n) => n,
        None => return false,
    };
    let h = match component_checked(&v, m.hours) {
        Some(n) => n,
        None => return false,
    };
    let d = match component_checked(&v, m.days) {
        Some(n) => n,
        None => return false,
    };
    let w = match component_checked(&v, m.weeks) {
        Some(n) => n,
        None => return false,
    };
    let mo = match component_checked(&v, m.months) {
        Some(n) => n,
        None => return false,
    };
    let y = match component_checked(&v, m.years) {
        Some(n) => n,
        None => return false,
    };
    let total: u128 = sec as u128 + mi as u128 * 60 + h as u128 * 3600 + d as u128 * 86400
        + w as u128 * 604800 + mo as u128 * 2592000 + y as u128 * 31536000;
    total <= u64::MAX as u128
}

/// Parses an `xs:duration`.
///
/// The text must start with `P` (after an optional `+` or `-`) and be a duration
/// to its end. A match without any date component and without `T` is refused as
/// empty, a negative one as not representable.
pub fn parse_xs_duration(s: &str) -> (r: Result<XsDuration, DurationError>)
    requires
        xs_seconds(s@) <= u64::MAX,
    ensures
        match r {
            Ok(d) => xs_duration_of(s@) == Ok::<(nat, nat), DurationError>(
                (d.secs as nat, d.nanos as nat),
            ),
            Err(e) => xs_duration_of(s@) == Err::<(nat, nat), DurationError>(e),
        },
{
    let v = chars_of(s);
    let m = match match_positions(&v) {
        Some(m) => m,
        None => {
            return Err(DurationError::NoMatch);
        },
    };
    if m.end != v.len() {
        return Err(DurationError::Trailing);
    }
    if !m.hastime && m.years.is_none() && m.months.is_none() && m.weeks.is_none()
        && m.days.is_none() {
        return Err(DurationError::Empty);
    }
    let nanos = match m.fraction {
        Some((i, j)) => fraction_nanos_of(&v, i, j),
        None => 0,
    };
    let secs = total_seconds_of(&v, &m);
    if m.negative {
        return Err(DurationError::Negative);
    }
    Ok(XsDuration { secs, nanos })
}

proof fn lemma_digits_value_bound9(s: Seq<char>, i: int, j: int)
    requires
        0 <= i <= j <= s.len(),
        j - i <= 9,
        forall|k: int| i <= k < j ==> is_digit(#[trigger] s[k]),
    ensures
        digits_value(s.subrange(i, j)) < pow10((j - i) as nat),
    decreases j - i,
{
    if j > i {
        lemma_digits_value_bound9(s, i, j - 1);
        lemma_digits_value_snoc(s, i, j);
        assert(s[j - 1] == s[j - 1]);
    } else {
        assert(s.subrange(i, j) =~= Seq::<char>::empty());
    }
}

proof fn lemma_nanos_bound(kept: nat, len: nat)
    requires
        len <= 9,
        kept < pow10(len),
    ensures
        kept * pow10((9 - len) as nat) < 1_000_000_000,
{
    lemma_pow10_add(len, (9 - len) as nat);
    reveal_with_fuel(pow10, 10);
    assert(pow10(9) == 1_000_000_000);
    assert(kept * pow10((9 - len) as nat) < pow10(len) * pow10((9 - len) as nat)) by (nonlinear_arith)
        requires
            kept < pow10(len),
            pow10((9 - len) as nat) >= 1,
    {}
    lemma_pow10_bound((9 - len) as nat);
}

proof fn lemma_pow10_add(a: nat, b: nat)
    ensures
        pow10(a) * pow10(b) == pow10(a + b),
    decreases a,
{
    if a > 0 {
        let am1: nat = (a - 1) as nat;
        lemma_pow10_add(am1, b);
        assert(pow10(a + b) == 10 * pow10(am1 + b));
        assert(pow10(a) == 10 * pow10(am1));
        assert(pow10(a) * pow10(b) == 10 * (pow10(am1) * pow10(b))) by (nonlinear_arith)
            requires
                pow10(a) == 10 * pow10(am1),
        {}
        assert(pow10(am1) * pow10(b) == pow10(am1 + b));
        assert(pow10(a) * pow10(b) == pow10(a + b));
    } else {
        assert(pow10(0) == 1);
        assert(pow10(a) * pow10(b) == pow10(b)) by (nonlinear_arith)
            requires
                pow10(a) == 1,
        {}
    }
}

proof fn lemma_parts_bounded(s: Seq<char>, m: XsMatch)
    requires
        total_seconds(s, m) <= u64::MAX,
    ensures
        component(s, m.seconds) <= u64::MAX,
        component(s, m.minutes) <= u64::MAX,
        component(s, m.hours) <= u64::MAX,
        component(s, m.days) <= u64::MAX,
        component(s, m.weeks) <= u64::MAX,
        component(s, m.months) <= u64::MAX,
        component(s, m.years) <= u64::MAX,
{
}

// ---------------------------------------------------------------------------
// writing a duration back

/// How a duration is written back: `PT<seconds>.<milliseconds>S`, the
/// milliseconds in three digits.
pub open spec fn duration_text(d: XsDuration) -> Seq<char> {
    seq!['P', 'T'] + decimal(d.secs as nat) + seq!['.'] + zero_pad(
        decimal((d.nanos / 1_000_000) as nat),
        3,
    ) + seq!['S']
}

/// Writes a duration as `PT<seconds>.<milliseconds>S` (see `duration_text`).
pub fn xs_duration_text(d: &XsDuration) -> (t: String)
    ensures
        t@ == duration_text(*d),
{
    let mut v = vec!['P', 'T'];
    let secs = decimal_string(d.secs);
    extend_chars(&mut v, &secs);
    v.push('.');
    let millis = decimal_string((d.nanos / 1_000_000) as u64);
    let padded = zero_pad_chars(&millis, 3);
    extend_chars(&mut v, &padded);
    v.push('S');
    assert(v@ =~= duration_text(*d));
    string_of(&v)
}

proof fn lemma_decimal(n: nat)
    ensures
        decimal(n).len() >= 1,
        all_digits(decimal(n)),
        digits_value(decimal(n)) == n,
        n < 10 ==> decimal(n).len() == 1,
        n < 100 ==> decimal(n).len() <= 2,
        n < 1000 ==> decimal(n).len() <= 3,
    decreases n,
{
    let c = digit_char(n % 10);
    assert(is_digit(c) && digit_value(c) == n % 10);
    if n >= 10 {
        lemma_decimal(n / 10);
        let t = decimal(n);
        assert(t.drop_last() =~= decimal(n / 10));
        assert(t.last() == c);
        assert(digits_value(t) == digits_value(t.drop_last()) * 10 + digit_value(t.last()));
        assert((n / 10) * 10 + n % 10 == n);
    } else {
        let t = decimal(n);
        assert(t.drop_last() =~= Seq::<char>::empty());
        assert(t.last() == c);
        assert(digits_value(t) == digits_value(t.drop_last()) * 10 + digit_value(t.last()));
        assert(n % 10 == n);
    }
}

proof fn lemma_zeros_value(z: Seq<char>, s: Seq<char>)
    requires
        forall|i: int| 0 <= i < z.len() ==> z[i] == '0',
    ensures
        digits_value(z + s) == digits_value(s),
    decreases z.len() + s.len(),
{
    if s.len() > 0 {
        assert((z + s).drop_last() =~= z + s.drop_last());
        lemma_zeros_value(z, s.drop_last());
    } else if z.len() > 0 {
        assert((z + s).drop_last() =~= z.drop_last() + s);
        lemma_zeros_value(z.drop_last(), s);
    } else {
        assert(z + s =~= Seq::<char>::empty());
    }
}

proof fn lemma_millis_text(ms: nat)
    requires
        ms < 1000,
    ensures
        zero_pad(decimal(ms), 3).len() == 3,
        all_digits(zero_pad(decimal(ms), 3)),
        digits_value(zero_pad(decimal(ms), 3)) == ms,
{
    lemma_decimal(ms);
    let d = decimal(ms);
    if d.len() < 3 {
        let z = Seq::new((3 - d.len()) as nat, |i: int| '0');
        lemma_zeros_value(z, d);
        assert(zero_pad(d, 3) == z + d);
    }
}

proof fn lemma_run_end_at(s: Seq<char>, i: int, j: int)
    requires
        0 <= i <= j <= s.len(),
        forall|k: int| i <= k < j ==> is_digit(#[trigger] s[k]),
        j == s.len() || !is_digit(s[j]),
    ensures
        run_end(s, i) == j,
    decreases j - i,
{
    if i < j {
        lemma_run_end_at(s, i + 1, j);
    }
}

/// Reading back a written duration gives its whole seconds and its
/// milliseconds (what lies below a millisecond is not written).
pub proof fn lemma_duration_text_round_trip(d: XsDuration)
    requires
        d.nanos < 1_000_000_000,
    ensures
        xs_duration_of(duration_text(d)) == Ok::<(nat, nat), DurationError>(
            (d.secs as nat, ((d.nanos / 1_000_000) * 1_000_000) as nat),
        ),
        xs_seconds(duration_text(d)) == d.secs,
{
    let s = duration_text(d);
    let a = decimal(d.secs as nat);
    let ms: nat = (d.nanos / 1_000_000) as nat;
    let f = zero_pad(decimal(ms), 3);
    lemma_decimal(d.secs as nat);
    lemma_millis_text(ms);
    let la = a.len() as int;
    assert(s.len() == 7 + la);
    assert(s[0] == 'P');
    assert(s[1] == 'T');
    assert forall|k: int| 2 <= k < 2 + la implies #[trigger] s[k] == a[k - 2] by {}
    assert(s[2 + la] == '.');
    assert forall|k: int| 3 + la <= k < 6 + la implies #[trigger] s[k] == f[k - 3 - la] by {}
    assert(s[6 + la] == 'S');
    assert(s.subrange(2, 2 + la) =~= a);
    assert(s.subrange(3 + la, 6 + la) =~= f);
    // the date part is empty: `T` follows `P`
    assert(!is_digit(s[1]));
    lemma_run_end_at(s, 1, 1);
    // the whole seconds end at the `.`
    assert forall|k: int| 2 <= k < 2 + la implies is_digit(#[trigger] s[k]) by {
        assert(s[k] == a[k - 2]);
    }
    lemma_run_end_at(s, 2, 2 + la);
    // the fraction ends at the `S`
    assert forall|k: int| 3 + la <= k < 6 + la implies is_digit(#[trigger] s[k]) by {
        assert(s[k] == f[k - 3 - la]);
    }
    lemma_run_end_at(s, 3 + la, 6 + la);
    let m = xs_match(s).unwrap();
    assert(xs_match(s) is Some);
    assert(m.years is None && m.months is None && m.weeks is None && m.days is None);
    assert(m.hastime);
    assert(m.hours is None && m.minutes is None);
    assert(m.seconds == Some((2int, 2 + la)));
    assert(m.fraction == Some((3 + la, 6 + la)));
    assert(!m.negative);
    assert(total_seconds(s, m) == d.secs);
    assert(f.subrange(0, 3) =~= f);
    assert(pow10(6) == 1_000_000) by {
        reveal_with_fuel(pow10, 7);
    }
    assert(fraction_nanos(s.subrange(3 + la, 6 + la)) == ms * 1_000_000);
}

/// A duration with a leading `-` is always refused: whatever follows the `-`,
/// reading the text gives an error, never the duration without its sign.
pub proof fn lemma_negative_refused(t: Seq<char>)
    ensures
        xs_duration_of(seq!['-'] + t) is Err,
{
    let s = seq!['-'] + t;
    assert(s[0] == '-');
    if let Some(m) = xs_match(s) {
        assert(m.negative);
    }
}

} // verus!
