//! The hook that copies the engine's log into the console, and which engine
//! errors it leaves out: parse errors that evaluating an expression provokes
//! as a matter of course.

use vstd::prelude::*;
use crate::numbers::{decimal, i64_to_string};
use crate::registry::{distinct_keys, key_index, lemma_key_index_unique, lookup, with_entry};
use crate::text::{chars_equal, chars_of, matches_at, occurs_at, push_chars, string_of};

verus! {

/// The kinds of errors the engine reports.
#[derive(Debug, PartialEq, Eq)]
pub enum ErrorType {
    Error,
    Warning,
    Script,
    Shader,
}

/// No newline among `s[a..b]`.
pub open spec fn line_free(s: Seq<char>, a: int, b: int) -> bool {
    forall|k: int| a <= k < b ==> s[k] != '\n'
}

/// `pos` places the parts in `s`: `parts[k]` occurs at `pos[k]`, and each part
/// starts at least one character after the previous one ends, with no newline
/// in between (the parts joined by the regular-expression wildcard `.+`).
pub open spec fn places(s: Seq<char>, parts: Seq<Seq<char>>, pos: Seq<int>) -> bool {
    &&& pos.len() == parts.len()
    &&& forall|k: int| 0 <= k < parts.len() ==> occurs_at(s, parts[k], #[trigger] pos[k])
    &&& forall|k: int|
        1 <= k < parts.len() ==> #[trigger] pos[k] >= pos[k - 1] + parts[k - 1].len() + 1
            && line_free(s, pos[k - 1] + parts[k - 1].len(), pos[k])
}

/// The pattern can be placed in `s` with its first part at `i`.
pub open spec fn match_at(s: Seq<char>, parts: Seq<Seq<char>>, i: int) -> bool {
    exists|pos: Seq<int>| #[trigger] places(s, parts, pos) && pos[0] == i
}

/// The pattern matches somewhere in `s`.
pub open spec fn pattern_matches(s: Seq<char>, parts: Seq<Seq<char>>) -> bool {
    exists|pos: Seq<int>| #[trigger] places(s, parts, pos)
}

proof fn lemma_places_tail(s: Seq<char>, parts: Seq<Seq<char>>, pos: Seq<int>)
    requires
        parts.len() >= 2,
        places(s, parts, pos),
    ensures
        places(s, parts.drop_first(), pos.drop_first()),
        pos[1] >= pos[0] + parts[0].len() + 1,
        line_free(s, pos[0] + parts[0].len(), pos[1]),
        occurs_at(s, parts[0], pos[0]),
{
    let t = parts.drop_first();
    let q = pos.drop_first();
    assert(pos[1] >= pos[0] + parts[0].len() + 1);
    assert(occurs_at(s, parts[0], pos[0]));
    assert forall|k: int| 0 <= k < t.len() implies occurs_at(s, t[k], #[trigger] q[k]) by {
        assert(occurs_at(s, parts[k + 1], pos[k + 1]));
    }
    assert forall|k: int| 1 <= k < t.len() implies #[trigger] q[k] >= q[k - 1] + t[k - 1].len() + 1
        && line_free(s, q[k - 1] + t[k - 1].len(), q[k]) by {
        assert(pos[k + 1] >= pos[k] + parts[k].len() + 1);
    }
}

proof fn lemma_places_cons(s: Seq<char>, parts: Seq<Seq<char>>, i: int, tail: Seq<int>)
    requires
        parts.len() >= 2,
        occurs_at(s, parts[0], i),
        places(s, parts.drop_first(), tail),
        tail[0] >= i + parts[0].len() + 1,
        line_free(s, i + parts[0].len(), tail[0]),
    ensures
        places(s, parts, seq![i] + tail),
{
    let pos = seq![i] + tail;
    let t = parts.drop_first();
    assert forall|k: int| 0 <= k < parts.len() implies occurs_at(s, parts[k], #[trigger] pos[k]) by {
        if k > 0 {
            assert(pos[k] == tail[k - 1]);
            assert(parts[k] == t[k - 1]);
            assert(occurs_at(s, t[k - 1], tail[k - 1]));
        }
    }
    assert forall|k: int| 1 <= k < parts.len() implies #[trigger] pos[k] >= pos[k - 1] + parts[k - 1].len() + 1
        && line_free(s, pos[k - 1] + parts[k - 1].len(), pos[k]) by {
        if k > 1 {
            assert(pos[k] == tail[k - 1]);
            assert(pos[k - 1] == tail[k - 2]);
            assert(parts[k - 1] == t[k - 2]);
            assert(tail[k - 1] >= tail[k - 2] + t[k - 2].len() + 1);
        }
    }
}

proof fn lemma_match_in_bounds(s: Seq<char>, parts: Seq<Seq<char>>, i: int)
    requires
        parts.len() > 0,
        match_at(s, parts, i),
    ensures
        0 <= i <= s.len(),
{
    let pos = choose|pos: Seq<int>| #[trigger] places(s, parts, pos) && pos[0] == i;
    assert(occurs_at(s, parts[0], pos[0]));
}

fn match_at_exec(s: &Vec<char>, parts: &Vec<Vec<char>>, from: usize, i: usize) -> (r: bool)
    requires
        from < parts.len(),
    ensures
        r == match_at(s@, parts@.map_values(|p: Vec<char>| p@).skip(from as int), i as int),
    decreases parts.len() - from,
{
    let ghost ps = parts@.map_values(|p: Vec<char>| p@).skip(from as int);
    let slen = s.len();
    assert(ps[0] == parts@[from as int]@);
    if !matches_at(s, &parts[from], i) {
        proof {
            if match_at(s@, ps, i as int) {
                let pos = choose|pos: Seq<int>| #[trigger] places(s@, ps, pos) && pos[0] == i;
                assert(occurs_at(s@, ps[0], pos[0]));
            }
        }
        return false;
    }
    if from + 1 == parts.len() {
        proof {
            let pos = seq![i as int];
            assert(places(s@, ps, pos));
        }
        return true;
    }
    let ghost rest = ps.drop_first();
    assert(rest =~= parts@.map_values(|p: Vec<char>| p@).skip(from + 1));
    assert(ps.len() >= 2);
    assert(i + parts@[from as int]@.len() <= s@.len());
    let start = i + parts[from].len();
    // a match needs no failing `j` at or beyond a newline or the end
    if start >= s.len() || s[start] == '\n' {
        proof {
            if match_at(s@, ps, i as int) {
                let pos = choose|pos: Seq<int>| #[trigger] places(s@, ps, pos) && pos[0] == i;
                lemma_places_tail(s@, ps, pos);
                if start < s@.len() {
                    assert(s@[start as int] == '\n');
                } else {
                    assert(match_at(s@, rest, pos[1]));
                    lemma_match_in_bounds(s@, rest, pos[1]);
                }
            }
        }
        return false;
    }
    let mut j = start + 1;
    loop
        invariant
            from + 1 < parts.len(),
            start < s.len(),
            slen == s@.len(),
            start + 1 <= j <= s.len(),
            ps == parts@.map_values(|p: Vec<char>| p@).skip(from as int),
            rest == ps.drop_first(),
            rest == parts@.map_values(|p: Vec<char>| p@).skip(from + 1),
            ps.len() >= 2,
            occurs_at(s@, ps[0], i as int),
            start == i + ps[0].len(),
            line_free(s@, start as int, j as int),
            forall|k: int| start + 1 <= k < j ==> !#[trigger] match_at(s@, rest, k),
        decreases s.len() - j,
    {
        if match_at_exec(s, parts, from + 1, j) {
            proof {
                let tail = choose|pos: Seq<int>| #[trigger] places(s@, rest, pos) && pos[0] == j;
                lemma_places_cons(s@, ps, i as int, tail);
                assert(places(s@, ps, seq![i as int] + tail));
                assert((seq![i as int] + tail)[0] == i);
            }
            return true;
        }
        if j == s.len() || s[j] == '\n' {
            proof {
                if match_at(s@, ps, i as int) {
                    let pos = choose|pos: Seq<int>| #[trigger] places(s@, ps, pos) && pos[0] == i;
                    lemma_places_tail(s@, ps, pos);
                    let k = pos[1];
                    assert(places(s@, rest, pos.drop_first()) && pos.drop_first()[0] == k);
                    assert(match_at(s@, rest, k));
                    if k > j {
                        if j < s@.len() {
                            assert(s@[j as int] == '\n');
                        } else {
                            lemma_match_in_bounds(s@, rest, k);
                        }
                    }
                }
            }
            return false;
        }
        j += 1;
    }
}

/// Does the pattern match somewhere in `s`?
pub fn find_pattern(s: &Vec<char>, parts: &Vec<Vec<char>>) -> (r: bool)
    requires
        parts@.len() > 0,
    ensures
        r == pattern_matches(s@, parts@.map_values(|p: Vec<char>| p@)),
{
    let ghost ps = parts@.map_values(|p: Vec<char>| p@);
    assert(ps.skip(0) =~= ps);
    let mut i: usize = 0;
    loop
        invariant
            parts@.len() > 0,
            ps == parts@.map_values(|p: Vec<char>| p@),
            ps.skip(0) == ps,
            i <= s.len(),
            forall|k: int| 0 <= k < i ==> !#[trigger] match_at(s@, ps, k),
        decreases s.len() - i,
    {
        if match_at_exec(s, parts, 0, i) {
            proof {
                let pos = choose|pos: Seq<int>| #[trigger] places(s@, ps, pos) && pos[0] == i;
                assert(places(s@, ps, pos));
            }
            return true;
        }
        if i == s.len() {
            proof {
                if pattern_matches(s@, ps) {
                    let pos = choose|pos: Seq<int>| #[trigger] places(s@, ps, pos);
                    assert(match_at(s@, ps, pos[0]));
                    lemma_match_in_bounds(s@, ps, pos[0]);
                }
            }
            return false;
        }
        i += 1;
    }
}

/// `Cannot get return value of call to ".+\(\)" because it returns "void"\.`
pub open spec fn void_call_pattern() -> Seq<Seq<char>> {
    seq!["Cannot get return value of call to \""@, "()\" because it returns \"void\"."@]
}

/// `Trying to get a return value of a method that returns "void"`
pub open spec fn void_method_pattern() -> Seq<Seq<char>> {
    seq!["Trying to get a return value of a method that returns \"void\""@]
}

/// `Assignment is not allowed inside an expression.` (the final `.` stands for any
/// character but a newline, so the text must go on after `expression`).
pub open spec fn assignment_pattern() -> Seq<Seq<char>> {
    seq!["Assignment is not allowed inside an expression"@, seq![]]
}

/// `Expected end of statement after .+, found ".+" instead\.`
pub open spec fn end_of_statement_pattern() -> Seq<Seq<char>> {
    seq!["Expected end of statement after "@, ", found \""@, "\" instead."@]
}

/// Errors that the console hides: script errors about using the result of a
/// `void` call, about assignments inside expressions, and about a missing end
/// of statement. Evaluating console input provokes these all the time.
pub open spec fn garbage_error(reason: Seq<char>, error_type: ErrorType) -> bool {
    error_type is Script && (pattern_matches(reason, void_call_pattern()) || pattern_matches(
        reason,
        void_method_pattern(),
    ) || pattern_matches(reason, assignment_pattern()) || pattern_matches(
        reason,
        end_of_statement_pattern(),
    ))
}

fn parts_of(lits: Vec<&str>) -> (r: Vec<Vec<char>>)
    ensures
        r@.map_values(|p: Vec<char>| p@) == lits@.map_values(|s: &str| s@),
{
    let mut out: Vec<Vec<char>> = Vec::new();
    for k in 0..lits.len()
        invariant
            out@.map_values(|p: Vec<char>| p@) == lits@.map_values(|s: &str| s@).take(k as int),
    {
        let ghost before = out@;
        let c = chars_of(lits[k]);
        out.push(c);
        assert(out@ == before.push(c));
        assert(out@.map_values(|p: Vec<char>| p@) =~= before.map_values(|p: Vec<char>| p@).push(c@));
        assert(lits@.map_values(|s: &str| s@).take(k + 1) =~= lits@.map_values(|s: &str| s@).take(
            k as int,
        ).push(lits@[k as int]@));
        assert(out@.map_values(|p: Vec<char>| p@) =~= lits@.map_values(|s: &str| s@).take(k + 1));
    }
    assert(lits@.map_values(|s: &str| s@).take(lits.len() as int) =~= lits@.map_values(
        |s: &str| s@,
    ));
    out
}

/// Whether an engine error should be hidden from the console output.
pub fn is_garbage_error(reason: &str, error_type: ErrorType) -> (r: bool)
    ensures
        r == garbage_error(reason@, error_type),
{
    match error_type {
        ErrorType::Script => {},
        _ => return false,
    }
    let s = chars_of(reason);
    let p1 = parts_of(vec!["Cannot get return value of call to \"", "()\" because it returns \"void\"."]);
    assert(p1@.map_values(|p: Vec<char>| p@) =~= void_call_pattern());
    if find_pattern(&s, &p1) {
        return true;
    }
    let p2 = parts_of(vec!["Trying to get a return value of a method that returns \"void\""]);
    assert(p2@.map_values(|p: Vec<char>| p@) =~= void_method_pattern());
    if find_pattern(&s, &p2) {
        return true;
    }
    let p3 = parts_of(vec!["Assignment is not allowed inside an expression", ""]);
    assert(p3@.map_values(|p: Vec<char>| p@) =~= assignment_pattern()) by {
        assert(""@ =~= Seq::<char>::empty()) by {
            reveal_strlit("");
        }
    }
    if find_pattern(&s, &p3) {
        return true;
    }
    let p4 = parts_of(vec!["Expected end of statement after ", ", found \"", "\" instead."]);
    assert(p4@.map_values(|p: Vec<char>| p@) =~= end_of_statement_pattern());
    find_pattern(&s, &p4)
}

/// The hook that copies the engine's log into the console, and whether it
/// is enabled.
pub struct LogHook {
    enabled: bool,
}

impl LogHook {
    /// The hook is enabled.
    pub closed spec fn is_enabled(self) -> bool {
        self.enabled
    }

    /// A hook, enabled or not.
    pub fn new(enabled: bool) -> (r: LogHook)
        ensures
            r.is_enabled() == enabled,
    {
        LogHook { enabled }
    }

    /// Whether the hook is enabled.
    pub fn get_enabled(&self) -> (r: bool)
        ensures
            r == self.is_enabled(),
    {
        self.enabled
    }

    /// Enables or disables the hook; answers the new state.
    pub fn set_enabled(&mut self, enabled: bool) -> (r: bool)
        ensures
            final(self).is_enabled() == enabled,
            r == enabled,
    {
        self.enabled = enabled;
        enabled
    }

    /// Switches the hook; answers the new state.
    pub fn toggle_enabled(&mut self) -> (r: bool)
        ensures
            final(self).is_enabled() == !old(self).is_enabled(),
            r == final(self).is_enabled(),
    {
        self.enabled = !self.enabled;
        self.enabled
    }

    /// Whether a log message is copied: when the hook is enabled.
    pub fn accepts_message(&self) -> (r: bool)
        ensures
            r == self.is_enabled(),
    {
        self.enabled
    }

    /// Whether an engine error is copied: when the hook is enabled and the
    /// error is not one that evaluating expressions provokes anyway.
    pub fn accepts_error(&self, reason: &str, error_type: ErrorType) -> (r: bool)
        ensures
            r == (self.is_enabled() && !garbage_error(reason@, error_type)),
    {
        if !self.enabled {
            return false;
        }
        !is_garbage_error(reason, error_type)
    }
}

/// How an engine error is shown: its kind, reason and rationale, then the
/// function and where it is.
pub open spec fn error_report_spec(
    kind: Seq<char>,
    reason: Seq<char>,
    rationale: Seq<char>,
    function: Seq<char>,
    file: Seq<char>,
    line: i32,
) -> Seq<char> {
    "Error ("@ + kind + "): "@ + reason + " ("@ + rationale + ")\n"@ + "Function: "@ + function + " ("@ + file
        + ":"@ + decimal(line as int) + ")\n"@
}

/// The text of an engine error as the console shows it; `kind` names the
/// error's kind.
pub fn error_report(kind: &str, reason: &str, rationale: &str, function: &str, file: &str, line: i32) -> (r: String)
    ensures
        r@ == error_report_spec(kind@, reason@, rationale@, function@, file@, line),
{
    let mut out: Vec<char> = Vec::new();
    push_chars(&mut out, "Error (");
    push_chars(&mut out, kind);
    push_chars(&mut out, "): ");
    push_chars(&mut out, reason);
    push_chars(&mut out, " (");
    push_chars(&mut out, rationale);
    push_chars(&mut out, ")\n");
    push_chars(&mut out, "Function: ");
    push_chars(&mut out, function);
    push_chars(&mut out, " (");
    push_chars(&mut out, file);
    push_chars(&mut out, ":");
    push_chars(&mut out, i64_to_string(line as i64).as_str());
    push_chars(&mut out, ")\n");
    assert(out@ =~= error_report_spec(kind@, reason@, rationale@, function@, file@, line));
    string_of(&out)
}

/// How long a reported error is remembered: 5 seconds, in nanoseconds.
pub const DEDUP_WINDOW_NANOS: u128 = 5_000_000_000;

/// An error reported at `then` is still remembered at `now`.
pub open spec fn remembered(then: u128, now: u128) -> bool {
    now < then + DEDUP_WINDOW_NANOS
}

/// One report of the error `key` at `now`: it is shown unless it was let
/// through less than the window ago; a shown error is remembered from `now`.
pub open spec fn allow_step(
    before: Seq<(Seq<char>, u128)>,
    key: Seq<char>,
    now: u128,
    after: Seq<(Seq<char>, u128)>,
    shown: bool,
) -> bool {
    &&& shown == !(lookup(before, key) matches Some(t) && remembered(t, now))
    &&& shown ==> after == with_entry(before, key, now)
    &&& !shown ==> after == before
}

/// The same error is shown at most once per window: after it was shown at
/// `t1`, it is shown again at `t2` only once the window has passed.
pub proof fn lemma_shown_once_per_window(
    e0: Seq<(Seq<char>, u128)>,
    e1: Seq<(Seq<char>, u128)>,
    e2: Seq<(Seq<char>, u128)>,
    key: Seq<char>,
    t1: u128,
    t2: u128,
)
    requires
        distinct_keys(e0),
        allow_step(e0, key, t1, e1, true),
        allow_step(e1, key, t2, e2, true),
    ensures
        t2 >= t1 + DEDUP_WINDOW_NANOS,
{
    crate::registry::lemma_set_then_lookup(e0, key, t1, key);
}

/// A run of reports: `states[m]` is what is remembered before report `m` (of
/// the error `reports[m].0` at the time `reports[m].1`), and `shown[m]` whether
/// that report was shown.
pub open spec fn dedup_run(
    states: Seq<Seq<(Seq<char>, u128)>>,
    reports: Seq<(Seq<char>, u128)>,
    shown: Seq<bool>,
) -> bool {
    &&& states.len() == reports.len() + 1
    &&& shown.len() == reports.len()
    &&& forall|m: int|
        0 <= m < reports.len() ==> #[trigger] allow_step(
            states[m],
            reports[m].0,
            reports[m].1,
            states[m + 1],
            shown[m],
        )
}

/// The report times never go back.
pub open spec fn times_ordered(reports: Seq<(Seq<char>, u128)>) -> bool {
    forall|a: int, b: int| 0 <= a < b < reports.len() ==> #[trigger] reports[a].1 <= #[trigger] reports[b].1
}

/// Some earlier report of the same error as report `j` was shown less than the
/// window before it.
pub open spec fn shown_lately(reports: Seq<(Seq<char>, u128)>, shown: Seq<bool>, j: int) -> bool {
    exists|i: int|
        0 <= i < j && #[trigger] reports[i].0 == reports[j].0 && shown[i] && remembered(reports[i].1, reports[j].1)
}

proof fn lemma_run_remembers(
    states: Seq<Seq<(Seq<char>, u128)>>,
    reports: Seq<(Seq<char>, u128)>,
    shown: Seq<bool>,
    key: Seq<char>,
    m: int,
)
    requires
        states[0].len() == 0,
        dedup_run(states, reports, shown),
        times_ordered(reports),
        0 <= m <= reports.len(),
    ensures
        distinct_keys(states[m]),
        lookup(states[m], key) matches Some(t) ==> exists|i: int|
            0 <= i < m && #[trigger] reports[i].0 == key && reports[i].1 == t && shown[i],
        forall|i: int|
            0 <= i < m && #[trigger] reports[i].0 == key && shown[i] ==> (lookup(states[m], key) matches Some(
                t,
            ) && t >= reports[i].1),
    decreases m,
{
    if m == 0 {
        assert(key_index(states[0], key) is None);
    } else {
        let p = m - 1;
        lemma_run_remembers(states, reports, shown, key, p);
        let k2 = reports[p].0;
        let now = reports[p].1;
        assert(allow_step(states[p], k2, now, states[p + 1], shown[p]));
        if shown[p] {
            crate::registry::lemma_set_then_lookup(states[p], k2, now, key);
        }
        if shown[p] && k2 == key {
            assert(lookup(states[m], key) == Some(now));
            assert(reports[p].0 == key);
            assert forall|i: int| 0 <= i < m && #[trigger] reports[i].0 == key && shown[i] implies (lookup(
                states[m],
                key,
            ) matches Some(t) && t >= reports[i].1) by {
                if i < p {
                    assert(reports[i].1 <= reports[p].1);
                }
            }
        } else {
            assert(lookup(states[m], key) == lookup(states[p], key));
            if let Some(t) = lookup(states[m], key) {
                let i = choose|i: int| 0 <= i < p && #[trigger] reports[i].0 == key && reports[i].1 == t && shown[i];
                assert(0 <= i < m && reports[i].0 == key && reports[i].1 == t && shown[i]);
            }
            assert forall|i: int| 0 <= i < m && #[trigger] reports[i].0 == key && shown[i] implies (lookup(
                states[m],
                key,
            ) matches Some(t) && t >= reports[i].1) by {
                if i == p {
                    assert(k2 == key);
                }
            }
        }
    }
}

/// What the deduplicator promises over any run of reports that starts with
/// nothing remembered and whose times never go back: a report is shown exactly
/// when no earlier report of the same error was shown less than the window
/// before it, whatever other errors were reported in between.
pub proof fn lemma_shown_unless_shown_lately(
    states: Seq<Seq<(Seq<char>, u128)>>,
    reports: Seq<(Seq<char>, u128)>,
    shown: Seq<bool>,
    j: int,
)
    requires
        states[0].len() == 0,
        dedup_run(states, reports, shown),
        times_ordered(reports),
        0 <= j < reports.len(),
    ensures
        shown[j] == !shown_lately(reports, shown, j),
{
    let key = reports[j].0;
    lemma_run_remembers(states, reports, shown, key, j);
    assert(allow_step(states[j], key, reports[j].1, states[j + 1], shown[j]));
    if shown_lately(reports, shown, j) {
        let i = choose|i: int|
            0 <= i < j && #[trigger] reports[i].0 == reports[j].0 && shown[i] && remembered(
                reports[i].1,
                reports[j].1,
            );
        assert(reports[i].0 == key);
    } else {
        if let Some(t) = lookup(states[j], key) {
            if remembered(t, reports[j].1) {
                let i = choose|i: int| 0 <= i < j && #[trigger] reports[i].0 == key && reports[i].1 == t && shown[i];
                assert(shown_lately(reports, shown, j));
            }
        }
    }
}

/// The errors reported lately, each with the time it was last reported, so
/// that the same error is shown at most once per window.
pub struct ErrorDeduplicator {
    seen: Vec<(String, u128)>,
}

impl ErrorDeduplicator {
    /// Each error's text and when it was last let through.
    pub closed spec fn entries(self) -> Seq<(Seq<char>, u128)> {
        self.seen@.map_values(|p: (String, u128)| (p.0@, p.1))
    }

    /// No error is listed twice.
    pub open spec fn wf(self) -> bool {
        distinct_keys(self.entries())
    }

    /// Nothing reported yet.
    pub fn new() -> (r: ErrorDeduplicator)
        ensures
            r.wf(),
            r.entries().len() == 0,
    {
        let r = ErrorDeduplicator { seen: Vec::new() };
        assert(r.entries() =~= Seq::<(Seq<char>, u128)>::empty());
        r
    }

    /// Whether the error `key`, reported at `now`, is shown: not when the same
    /// error was let through less than the window ago. A shown error is
    /// remembered from `now` on.
    pub fn allow(&mut self, key: &str, now: u128) -> (r: bool)
        requires
            old(self).wf(),
        ensures
            final(self).wf(),
            allow_step(old(self).entries(), key@, now, final(self).entries(), r),
    {
        let ghost es = self.entries();
        let k = chars_of(key);
        let n = self.seen.len();
        let mut i: usize = 0;
        while i < n
            invariant
                n == self.seen@.len(),
                es == self.entries(),
                es == old(self).entries(),
                distinct_keys(es),
                k@ == key@,
                i <= n,
                forall|j: int| 0 <= j < i ==> #[trigger] es[j].0 != key@,
            decreases n - i,
        {
            let c = chars_of(self.seen[i].0.as_str());
            if chars_equal(&c, &k) {
                proof {
                    assert(es[i as int].0 == key@);
                    lemma_key_index_unique(es, i as int);
                }
                let then = self.seen[i].1;
                if now < then || now - then < DEDUP_WINDOW_NANOS {
                    return false;
                }
                self.seen.set(i, (String::from_str(key), now));
                proof {
                    assert(self.entries() =~= es.update(i as int, (key@, now)));
                    assert forall|a: int, b: int| 0 <= a < b < self.entries().len() implies self.entries()[a].0
                        != self.entries()[b].0 by {
                        assert(self.entries()[a].0 == es[a].0);
                        assert(self.entries()[b].0 == es[b].0);
                    }
                }
                return true;
            }
            i += 1;
        }
        proof {
            assert(!(exists|j: int| 0 <= j < es.len() && es[j].0 == key@));
            assert(key_index(es, key@) is None);
        }
        self.seen.push((String::from_str(key), now));
        proof {
            assert(self.entries() =~= es.push((key@, now)));
            assert forall|a: int, b: int| 0 <= a < b < self.entries().len() implies self.entries()[a].0
                != self.entries()[b].0 by {
                if b < es.len() {
                    assert(self.entries()[a].0 == es[a].0);
                    assert(self.entries()[b].0 == es[b].0);
                } else {
                    assert(self.entries()[a].0 == es[a].0);
                }
            }
        }
        true
    }
}

} // verus!
