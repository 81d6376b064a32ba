//! Numbers and templates: decimal text, the stepped ranges of `:for`, template
//! substitution, and human-readable durations and HTTP statuses.

use vstd::prelude::*;
use crate::text::{chars_of, concat, matches_at, string_of};

verus! {

/// The decimal digit character for `d` (0 to 9).
pub open spec fn digit_char(d: nat) -> char {
    (48 + d) as char
}

/// The decimal digits of `n`, without leading zeros.
pub open spec fn digits(n: nat) -> Seq<char>
    decreases n,
{
    if n < 10 {
        seq![digit_char(n)]
    } else {
        digits(n / 10).push(digit_char(n % 10))
    }
}

/// The decimal text of `n` (what `to_string` gives for an integer).
pub open spec fn decimal(n: int) -> Seq<char> {
    if n < 0 {
        seq!['-'] + digits((-n) as nat)
    } else {
        digits(n as nat)
    }
}

fn digit(d: u64) -> (c: char)
    requires
        d < 10,
    ensures
        c == digit_char(d as nat),
{
    let b: u8 = 48u8 + d as u8;
    b as char
}

fn digits_of(n: u64) -> (r: Vec<char>)
    ensures
        r@ == digits(n as nat),
{
    let mut m = n;
    let mut acc: Vec<char> = Vec::new();
    while m >= 10
        invariant
            digits(n as nat) == digits(m as nat) + acc@,
        decreases m,
    {
        let c = digit(m % 10);
        let ghost before = acc@;
        acc.insert(0, c);
        assert(acc@ =~= seq![c] + before);
        assert(digits(m as nat) == digits((m / 10) as nat).push(c));
        assert(digits(n as nat) =~= digits((m / 10) as nat) + acc@);
        m = m / 10;
    }
    let c = digit(m);
    let ghost before = acc@;
    acc.insert(0, c);
    assert(acc@ =~= seq![c] + before);
    assert(digits(n as nat) =~= acc@);
    acc
}

/// The decimal text of `n`.
pub fn i64_to_string(n: i64) -> (r: String)
    ensures
        r@ == decimal(n as int),
{
    if n < 0 {
        let mag: u64 = if n == i64::MIN {
            9223372036854775808u64
        } else {
            (-n) as u64
        };
        let mut v: Vec<char> = Vec::new();
        v.push('-');
        let d = digits_of(mag);
        let mut k: usize = 0;
        while k < d.len()
            invariant
                k <= d.len(),
                v@ == seq!['-'] + d@.take(k as int),
            decreases d.len() - k,
        {
            v.push(d[k]);
            assert(d@.take(k + 1) == d@.take(k as int).push(d@[k as int]));
            assert(v@ =~= seq!['-'] + d@.take(k + 1));
            k += 1;
        }
        assert(d@.take(d.len() as int) == d@);
        string_of(&v)
    } else {
        string_of(&digits_of(n as u64))
    }
}

/// The decimal text of `n`.
pub fn u64_to_string(n: u64) -> (r: String)
    ensures
        r@ == decimal(n as int),
{
    string_of(&digits_of(n))
}

/// `s` with every occurrence of `pat` replaced by `rep`, scanning left to
/// right without overlap (what `str::replace` does). An empty `pat` occurs
/// before each character and at the end.
pub open spec fn replace_all(s: Seq<char>, pat: Seq<char>, rep: Seq<char>) -> Seq<char>
    decreases s.len(),
{
    if pat.len() == 0 {
        if s.len() == 0 {
            rep
        } else {
            rep + seq![s[0]] + replace_all(s.drop_first(), pat, rep)
        }
    } else if s.len() == 0 {
        s
    } else if s.len() >= pat.len() && s.take(pat.len() as int) == pat {
        rep + replace_all(s.skip(pat.len() as int), pat, rep)
    } else {
        seq![s[0]] + replace_all(s.drop_first(), pat, rep)
    }
}

/// `s.replace(pat, rep)`.
pub fn replace(s: &str, pat: &str, rep: &str) -> (r: String)
    ensures
        r@ == replace_all(s@, pat@, rep@),
{
    let v = chars_of(s);
    let p = chars_of(pat);
    let q = chars_of(rep);
    let mut out: Vec<char> = Vec::new();
    let mut i: usize = 0;
    assert(v@.skip(0) == v@);
    if p.len() == 0 {
        assert(out@ + replace_all(v@, p@, q@) =~= replace_all(v@, p@, q@));
        while i < v.len()
            invariant
                i <= v.len(),
                p@.len() == 0,
                replace_all(v@, p@, q@) == out@ + replace_all(v@.skip(i as int), p@, q@),
            decreases v.len() - i,
        {
            let ghost rest = v@.skip(i as int);
            let ghost before = out@;
            crate::text::extend_chars(&mut out, &q);
            out.push(v[i]);
            assert(rest[0] == v@[i as int]);
            assert(rest.drop_first() =~= v@.skip(i + 1));
            assert(out@ + replace_all(v@.skip(i + 1), p@, q@) =~= before + replace_all(rest, p@, q@));
            i = i + 1;
        }
        let ghost before = out@;
        crate::text::extend_chars(&mut out, &q);
        assert(v@.skip(i as int).len() == 0);
        assert(out@ =~= before + replace_all(v@.skip(i as int), p@, q@));
        return string_of(&out);
    }
    assert(out@ + replace_all(v@, p@, q@) =~= replace_all(v@, p@, q@));
    while i < v.len()
        invariant
            i <= v.len(),
            p@.len() > 0,
            replace_all(v@, p@, q@) == out@ + replace_all(v@.skip(i as int), p@, q@),
        decreases v.len() - i,
    {
        let ghost rest = v@.skip(i as int);
        if matches_at(&v, &p, i) {
            assert(rest.take(p@.len() as int) == v@.subrange(i as int, i + p@.len()));
            assert(rest.skip(p@.len() as int) == v@.skip(i + p@.len()));
            let mut k: usize = 0;
            let ghost before = out@;
            while k < q.len()
                invariant
                    k <= q.len(),
                    out@ == before + q@.take(k as int),
                decreases q.len() - k,
            {
                out.push(q[k]);
                assert(q@.take(k + 1) == q@.take(k as int).push(q@[k as int]));
                assert(out@ =~= before + q@.take(k + 1));
                k += 1;
            }
            assert(q@.take(q.len() as int) == q@);
            assert(out@ + replace_all(v@.skip(i + p@.len()), p@, q@) =~= before + replace_all(
                rest,
                p@,
                q@,
            ));
            i = i + p.len();
        } else {
            proof {
                if rest.len() >= p@.len() {
                    assert(rest.take(p@.len() as int) == v@.subrange(i as int, i + p@.len()));
                }
            }
            assert(rest[0] == v@[i as int]);
            assert(rest.drop_first() == v@.skip(i + 1));
            let ghost before = out@;
            out.push(v[i]);
            assert(out@ + replace_all(v@.skip(i + 1), p@, q@) =~= before + replace_all(
                rest,
                p@,
                q@,
            ));
            i = i + 1;
        }
    }
    assert(v@.skip(i as int).len() == 0);
    assert(out@ + replace_all(v@.skip(i as int), p@, q@) =~= out@);
    string_of(&out)
}

/// `{key}` for a template variable `key`.
pub open spec fn placeholder(key: Seq<char>) -> Seq<char> {
    seq!['{'] + key + seq!['}']
}

/// Substitutes each variable in turn: every `{key}` becomes its value.
pub open spec fn render_spec(template: Seq<char>, vars: Seq<(Seq<char>, Seq<char>)>) -> Seq<char>
    decreases vars.len(),
{
    if vars.len() == 0 {
        template
    } else {
        replace_all(
            render_spec(template, vars.drop_last()),
            placeholder(vars.last().0),
            vars.last().1,
        )
    }
}

/// The views of key-value pairs of strings.
pub open spec fn pair_views(v: Seq<(String, String)>) -> Seq<(Seq<char>, Seq<char>)> {
    v.map_values(|p: (String, String)| (p.0@, p.1@))
}

fn make_placeholder(key: &String) -> (r: String)
    ensures
        r@ == placeholder(key@),
{
    let k = chars_of(key.as_str());
    let mut v: Vec<char> = Vec::new();
    v.push('{');
    let mut i: usize = 0;
    while i < k.len()
        invariant
            i <= k.len(),
            v@ == seq!['{'] + k@.take(i as int),
        decreases k.len() - i,
    {
        v.push(k[i]);
        assert(k@.take(i + 1) == k@.take(i as int).push(k@[i as int]));
        assert(v@ =~= seq!['{'] + k@.take(i + 1));
        i += 1;
    }
    v.push('}');
    assert(k@.take(k.len() as int) == k@);
    assert(v@ =~= placeholder(key@));
    string_of(&v)
}

/// Replaces every `{key}` in `template` with the value of `key`, one variable
/// after the other.
pub fn render_template(template: &str, vars: &Vec<(String, String)>) -> (r: String)
    ensures
        r@ == render_spec(template@, pair_views(vars@)),
{
    let mut result = string_of(&chars_of(template));
    let mut k: usize = 0;
    while k < vars.len()
        invariant
            k <= vars.len(),
            result@ == render_spec(template@, pair_views(vars@).take(k as int)),
        decreases vars.len() - k,
    {
        let pat = make_placeholder(&vars[k].0);
        result = replace(result.as_str(), pat.as_str(), vars[k].1.as_str());
        assert(pair_views(vars@).take(k + 1).drop_last() =~= pair_views(vars@).take(k as int));
        assert(pair_views(vars@).take(k + 1).last() == (vars@[k as int].0@, vars@[k as int].1@));
        k += 1;
    }
    assert(pair_views(vars@).take(vars.len() as int) =~= pair_views(vars@));
    result
}

/// Why a `:for` range is refused.
#[derive(Debug, PartialEq, Eq)]
pub enum SteppedRangeError {
    /// The step is 0.
    StepZero,
    /// The step moves away from the end.
    WrongDirection { start: i64, end: i64, step: i64 },
}

impl SteppedRangeError {
    /// The error's message.
    pub fn message(&self) -> (r: String)
        ensures
            r@ == match *self {
                SteppedRangeError::StepZero => "step must not be 0"@,
                SteppedRangeError::WrongDirection { start, end, step } => "step "@ + decimal(step as int)
                    + " does not move from "@ + decimal(start as int) + " toward "@ + decimal(end as int),
            },
    {
        match self {
            SteppedRangeError::StepZero => String::from_str("step must not be 0"),
            SteppedRangeError::WrongDirection { start, end, step } => {
                let a = concat("step ", i64_to_string(*step).as_str());
                let b = concat(a.as_str(), " does not move from ");
                let c = concat(b.as_str(), i64_to_string(*start).as_str());
                let d = concat(c.as_str(), " toward ");
                concat(d.as_str(), i64_to_string(*end).as_str())
            },
        }
    }
}

/// How many steps fit between `c` and `end`.
pub open spec fn steps_left(c: int, end: int, step: int) -> nat {
    if step > 0 && c <= end {
        ((end - c) / step) as nat
    } else if step < 0 && c >= end {
        ((c - end) / (-step)) as nat
    } else {
        0
    }
}

/// `start`, `start + step`, `start + 2 * step`, ... as long as they do not pass `end`.
pub open spec fn stepped_values(start: int, end: int, step: int) -> Seq<int> {
    Seq::new(steps_left(start, end, step) + 1, |k: int| start + k * step)
}

/// The values of a `:for` loop, produced one at a time.
pub struct SteppedRange {
    next: Option<i64>,
    end: i64,
    step: i64,
}

impl SteppedRange {
    /// The values still to come.
    pub closed spec fn remaining(self) -> Seq<int> {
        match self.next {
            Some(c) => stepped_values(c as int, self.end as int, self.step as int),
            None => seq![],
        }
    }

    pub closed spec fn wf(self) -> bool {
        &&& self.step != 0
        &&& self.next matches Some(c) ==> (self.step > 0 ==> c <= self.end) && (self.step < 0 ==> c
            >= self.end)
    }

    /// The values from `start` to `end` (inclusive) in steps of `step`. Refused
    /// when `step` is 0 or moves away from `end`.
    pub fn new(start: i64, end: i64, step: i64) -> (r: Result<SteppedRange, SteppedRangeError>)
        ensures
            step == 0 ==> r matches Err(SteppedRangeError::StepZero),
            step != 0 && ((end > start && step < 0) || (end < start && step > 0)) ==> (r matches Err(
                SteppedRangeError::WrongDirection { start: s, end: e, step: st },
            ) && s == start && e == end && st == step),
            step != 0 && !((end > start && step < 0) || (end < start && step > 0)) ==> (r matches Ok(
                range,
            ) && range.wf() && range.remaining() == stepped_values(
                start as int,
                end as int,
                step as int,
            )),
    {
        if step == 0 {
            return Err(SteppedRangeError::StepZero);
        }
        if (end > start && step < 0) || (end < start && step > 0) {
            return Err(SteppedRangeError::WrongDirection { start, end, step });
        }
        Ok(SteppedRange { next: Some(start), end, step })
    }

    /// The next value, if any.
    pub fn next(&mut self) -> (r: Option<i64>)
        requires
            old(self).wf(),
        ensures
            final(self).wf(),
            old(self).remaining().len() == 0 ==> r is None && final(self).remaining().len() == 0,
            old(self).remaining().len() > 0 ==> (r matches Some(x) && x == old(self).remaining()[0]
                && final(self).remaining() == old(self).remaining().drop_first()),
    {
        match self.next {
            None => None,
            Some(c) => {
                let ghost vals = stepped_values(c as int, self.end as int, self.step as int);
                let step = self.step;
                let end = self.end;
                let following: Option<i64> = match c.checked_add(step) {
                    Some(n) => {
                        if (step > 0 && n <= end) || (step < 0 && n >= end) {
                            Some(n)
                        } else {
                            None
                        }
                    },
                    None => None,
                };
                proof {
                    lemma_stepped_step(c as int, end as int, step as int);
                }
                self.next = following;
                Some(c)
            },
        }
    }
}

proof fn lemma_stepped_step(c: int, end: int, step: int)
    requires
        step != 0,
        step > 0 ==> c <= end,
        step < 0 ==> c >= end,
    ensures
        stepped_values(c, end, step)[0] == c,
        (step > 0 && c + step <= end) || (step < 0 && c + step >= end) ==> stepped_values(
            c + step,
            end,
            step,
        ) == stepped_values(c, end, step).drop_first(),
        !((step > 0 && c + step <= end) || (step < 0 && c + step >= end)) ==> stepped_values(
            c,
            end,
            step,
        ).len() == 1,
{
    let s = stepped_values(c, end, step);
    assert(s[0] == c + 0 * step);
    if step > 0 {
        let d = end - c;
        if c + step <= end {
            assert((d - step) / step == d / step - 1) by {
                vstd::arithmetic::div_mod::lemma_div_plus_one(d - step, step);
            }
        } else {
            assert(d / step == 0) by {
                vstd::arithmetic::div_mod::lemma_basic_div(d, step);
            }
        }
    } else {
        let d = c - end;
        let ns = -step;
        if c + step >= end {
            assert((d - ns) / ns == d / ns - 1) by {
                vstd::arithmetic::div_mod::lemma_div_plus_one(d - ns, ns);
            }
        } else {
            assert(d / ns == 0) by {
                vstd::arithmetic::div_mod::lemma_basic_div(d, ns);
            }
        }
    }
    if (step > 0 && c + step <= end) || (step < 0 && c + step >= end) {
        let t = stepped_values(c + step, end, step);
        assert forall|k: int| 0 <= k < t.len() implies t[k] == s.drop_first()[k] by {
            assert((c + step) + k * step == c + (k + 1) * step) by (nonlinear_arith);
        }
        assert(t =~= s.drop_first());
    }
}

/// The values of a range that is not refused never pass its end: each lies
/// between `start` and `end`, and each is one step further than the previous.
pub proof fn lemma_stepped_values_bounded(start: int, end: int, step: int, k: int)
    requires
        step != 0,
        !((end > start && step < 0) || (end < start && step > 0)),
        0 <= k < stepped_values(start, end, step).len(),
    ensures
        step > 0 ==> start <= stepped_values(start, end, step)[k] <= end,
        step < 0 ==> end <= stepped_values(start, end, step)[k] <= start,
        k > 0 ==> stepped_values(start, end, step)[k] == stepped_values(start, end, step)[k - 1] + step,
{
    let v = stepped_values(start, end, step);
    assert(v[k] == start + k * step);
    if k > 0 {
        assert(v[k - 1] == start + (k - 1) * step);
        assert(k * step == (k - 1) * step + step) by (nonlinear_arith);
    }
    if step > 0 {
        let d = end - start;
        assert(k <= d / step);
        vstd::arithmetic::div_mod::lemma_fundamental_div_mod(d, step);
        assert(0 <= k * step <= d) by (nonlinear_arith)
            requires
                0 <= k <= d / step,
                step > 0,
                d == step * (d / step) + d % step,
                d % step >= 0,
        ;
    } else {
        let d = start - end;
        let ns = -step;
        assert(k <= d / ns);
        vstd::arithmetic::div_mod::lemma_fundamental_div_mod(d, ns);
        assert(0 <= k * ns <= d) by (nonlinear_arith)
            requires
                0 <= k <= d / ns,
                ns > 0,
                d == ns * (d / ns) + d % ns,
                d % ns >= 0,
        ;
        assert(k * step == -(k * ns)) by (nonlinear_arith)
            requires
                ns == -step,
        ;
    }
}

/// The expressions that `:for` evaluates: `base` with every `{binding}`
/// replaced by each value of `range` in turn.
pub fn expand_for(binding: &str, base: &str, range: SteppedRange) -> (r: Vec<String>)
    requires
        range.wf(),
    ensures
        r@.len() == range.remaining().len(),
        forall|k: int|
            0 <= k < r@.len() ==> (#[trigger] r@[k])@ == replace_all(
                base@,
                placeholder(binding@),
                decimal(range.remaining()[k]),
            ),
{
    let key = string_of(&chars_of(binding));
    let ghost all = range.remaining();
    let mut range = range;
    let mut out: Vec<String> = Vec::new();
    loop
        invariant
            range.wf(),
            key@ == binding@,
            out@.len() + range.remaining().len() == all.len(),
            range.remaining() == all.skip(out@.len() as int),
            forall|k: int|
                0 <= k < out@.len() ==> (#[trigger] out@[k])@ == replace_all(
                    base@,
                    placeholder(binding@),
                    decimal(all[k]),
                ),
        ensures
            out@.len() == all.len(),
            forall|k: int|
                0 <= k < out@.len() ==> (#[trigger] out@[k])@ == replace_all(
                    base@,
                    placeholder(binding@),
                    decimal(all[k]),
                ),
        decreases range.remaining().len(),
    {
        let ghost before = range.remaining();
        match range.next() {
            Some(x) => {
                assert(before[0] == all[out@.len() as int]);
                let mut vars: Vec<(String, String)> = Vec::new();
                let num = i64_to_string(x);
                vars.push((key.clone(), num));
                assert(pair_views(vars@).len() == 1);
                assert(pair_views(vars@).drop_last() =~= Seq::<(Seq<char>, Seq<char>)>::empty());
                assert(pair_views(vars@).last() == (binding@, decimal(x as int)));
                assert(render_spec(base@, pair_views(vars@).drop_last()) == base@);
                let e = render_template(base, &vars);
                assert(e@ == replace_all(base@, placeholder(binding@), decimal(all[out@.len() as int])));
                let ghost prev = out@;
                out.push(e);
                assert forall|k: int| 0 <= k < out@.len() implies (#[trigger] out@[k])@ == replace_all(
                    base@,
                    placeholder(binding@),
                    decimal(all[k]),
                ) by {
                    if k < prev.len() {
                        assert(out@[k] == prev[k]);
                    }
                }
                assert(before.drop_first() =~= all.skip(out@.len() as int));
            },
            None => {
                assert(all.skip(out@.len() as int).len() == 0);
                break ;
            },
        }
    }
    out
}

/// The expressions of `:for binding from to step base`, or why the range is refused.
pub fn for_expressions(binding: &str, base: &str, from: i64, to: i64, step: i64) -> (r: Result<
    Vec<String>,
    SteppedRangeError,
>)
    ensures
        step == 0 ==> r matches Err(SteppedRangeError::StepZero),
        step != 0 && ((to > from && step < 0) || (to < from && step > 0)) ==> r matches Err(
            SteppedRangeError::WrongDirection { .. },
        ),
        step != 0 && !((to > from && step < 0) || (to < from && step > 0)) ==> (r matches Ok(v)
            && v@.len() == stepped_values(from as int, to as int, step as int).len() && forall|k: int|
            0 <= k < v@.len() ==> (#[trigger] v@[k])@ == replace_all(
                base@,
                placeholder(binding@),
                decimal(stepped_values(from as int, to as int, step as int)[k]),
            )),
{
    match SteppedRange::new(from, to, step) {
        Ok(range) => Ok(expand_for(binding, base, range)),
        Err(e) => Err(e),
    }
}

/// A duration in words: the count of the largest fitting unit (seconds,
/// minutes, hours, days, 30-day months, 365-day years) and its symbol.
pub open spec fn humanize_parts(secs: int) -> (int, Seq<char>) {
    let day: int = 86400;
    if secs < 60 {
        (secs, "s"@)
    } else if secs < 3600 {
        (secs / 60int, "m"@)
    } else if secs < day {
        (secs / 3600int, "h"@)
    } else if secs < day * 30 {
        (secs / day, "d"@)
    } else if secs < day * 365 {
        (secs / (day * 30), "mo"@)
    } else {
        (secs / (day * 365), "y"@)
    }
}

/// How long ago something happened, e.g. `5m ago` for 300 to 359 seconds.
pub fn humanize_duration(secs: i64) -> (r: String)
    ensures
        r@ == decimal(humanize_parts(secs as int).0) + humanize_parts(secs as int).1 + " ago"@,
{
    let day: i64 = 24 * 60 * 60;
    let (value, unit): (i64, &str) = if secs < 60 {
        (secs, "s")
    } else if secs < 60 * 60 {
        (secs / 60, "m")
    } else if secs < day {
        (secs / (60 * 60), "h")
    } else if secs < day * 30 {
        (secs / day, "d")
    } else if secs < day * 365 {
        (secs / (day * 30), "mo")
    } else {
        (secs / (day * 365), "y")
    };
    let a = concat(i64_to_string(value).as_str(), unit);
    concat(a.as_str(), " ago")
}

/// The reason phrase that the `http` crate gives a status code, if it knows one.
pub uninterp spec fn http_canonical_reason(code: u16) -> Option<Seq<char>>;

/// Calls `http::StatusCode::from_u16`, which accepts exactly the codes 100 to 999.
#[verifier::external_body]
fn status_code_is_valid(code: u16) -> (r: bool)
    ensures
        r == (100 <= code && code <= 999),
{
    http::StatusCode::from_u16(code).is_ok()
}

/// Calls `http::StatusCode::canonical_reason` on the status code `code`; the
/// phrase depends on the code alone.
#[verifier::external_body]
fn canonical_reason_of_code(code: u16) -> (r: Option<&'static str>)
    requires
        100 <= code <= 999,
    ensures
        match r {
            Some(s) => http_canonical_reason(code) == Some(s@),
            None => http_canonical_reason(code) is None,
        },
{
    match http::StatusCode::from_u16(code) {
        Ok(status) => status.canonical_reason(),
        Err(_) => None,
    }
}

/// `code reason`, or just the code when there is no reason phrase.
pub fn format_status(code: u16, reason: Option<&str>) -> (r: String)
    ensures
        r@ == match reason {
            Some(p) => decimal(code as int) + " "@ + p@,
            None => decimal(code as int),
        },
{
    let num = u64_to_string(code as u64);
    match reason {
        Some(p) => {
            let a = concat(num.as_str(), " ");
            concat(a.as_str(), p)
        },
        None => num,
    }
}

/// An HTTP status for the user, e.g. `502 Bad Gateway`: just the number when
/// it is no valid status code or has no known reason phrase.
pub fn describe_status(code: i64) -> (r: String)
    ensures
        r@ == (if 100 <= code <= 999 {
            match http_canonical_reason(code as u16) {
                Some(p) => decimal(code as int) + " "@ + p,
                None => decimal(code as int),
            }
        } else {
            decimal(code as int)
        }),
{
    if 0 <= code && code <= 65535 {
        let c = code as u16;
        if status_code_is_valid(c) {
            let reason = canonical_reason_of_code(c);
            return format_status(c, reason);
        }
    }
    i64_to_string(code)
}

} // verus!
