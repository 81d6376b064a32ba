//! The history of submitted commands: what is recorded, how the user moves
//! through it, and how it is searched.

use vstd::prelude::*;
use crate::sorting::{KeyView, SortKey, sort_by_key, stable_sort};
use crate::autocomplete::{group_of, matching_group, strip_keys};
use crate::text::{
    chars_equal, chars_of, lowercase, to_lowercase,
    trim, trim_spec, trim_start, trim_start_spec, views,
};

verus! {

/// One submitted command.
pub struct HistoryEntry {
    /// When the command completed, in nanoseconds since the Unix epoch.
    pub timestamp: i128,
    pub command: String,
    pub success: bool,
    /// Time spent executing, in nanoseconds.
    pub execution_time: u128,
    /// Time spent waiting for an asynchronous result, if there was any.
    pub async_wait_time: Option<u128>,
    /// Time spent waiting for a signal, if there was any.
    pub signal_wait_time: Option<u128>,
}

/// A history search result.
pub struct SearchSlot {
    pub name: String,
    pub timestamp: i128,
    pub success: bool,
}

/// Entry `i` of `h` is followed by an entry with the same command, ignoring
/// surrounding whitespace.
pub open spec fn superseded(h: Seq<HistoryEntry>, i: int) -> bool {
    exists|j: int| i < j < h.len() && trim_spec(#[trigger] h[j].command@) == trim_spec(h[i].command@)
}

/// The search results among the first `n` entries of `h`, given each entry's
/// command lower-cased (`lowers`) and the lower-cased line: entries that are the
/// latest with their command and whose lower-cased command contains the line,
/// each with the key it is ordered by.
pub open spec fn search_candidates_lowered(
    h: Seq<HistoryEntry>,
    lowers: Seq<Seq<char>>,
    line_lower: Seq<char>,
    n: int,
) -> Seq<(KeyView, SearchSlot)>
    decreases n,
{
    if n <= 0 {
        seq![]
    } else {
        let rest = search_candidates_lowered(h, lowers, line_lower, n - 1);
        let e = h[n - 1];
        if superseded(h, n - 1) {
            rest
        } else {
            match group_of(lowers[n - 1], line_lower) {
                Some(g) => rest.push(
                    (
                        KeyView {
                            group: g,
                            rank: 0,
                            recency: e.timestamp,
                            text: seq![],
                            len: vstd::utf8::encode_utf8(e.command@).len() as usize,
                        },
                        SearchSlot { name: e.command, timestamp: e.timestamp, success: e.success },
                    ),
                ),
                None => rest,
            }
        }
    }
}

/// The commands of the entries, lower-cased.
pub open spec fn commands_lowercase(h: Seq<HistoryEntry>) -> Seq<Seq<char>> {
    h.map_values(|e: HistoryEntry| lowercase(e.command@))
}

/// The search results among the first `n` entries of `h`: entries that are the
/// latest with their command and whose command contains `line` (ignoring case),
/// each with the key it is ordered by.
pub open spec fn search_candidates(h: Seq<HistoryEntry>, line: Seq<char>, n: int) -> Seq<
    (KeyView, SearchSlot),
> {
    search_candidates_lowered(h, commands_lowercase(h), lowercase(line), n)
}

/// Searches the history for `line_lower`, given each entry's command
/// lower-cased (`commands_lower`, one per entry). Of several entries with the
/// same command (ignoring surrounding whitespace) only the latest counts.
/// Results are the commands whose lower-cased text contains `line_lower`: those
/// that start with it first, then newest first, then shortest first.
pub fn search_history_lowered(history: &Vec<HistoryEntry>, commands_lower: &Vec<String>, line_lower: &str) -> (r:
    Vec<SearchSlot>)
    requires
        commands_lower@.len() == history@.len(),
    ensures
        r@ == stable_sort(
            search_candidates_lowered(history@, views(commands_lower@), line_lower@, history@.len() as int),
        ).map_values(|p: (KeyView, SearchSlot)| p.1),
{
    let n = history.len();
    let ghost lowers = views(commands_lower@);
    let mut trimmed: Vec<Vec<char>> = Vec::new();
    for k in 0..n
        invariant
            n == history@.len(),
            trimmed@.len() == k,
            forall|m: int| 0 <= m < k ==> (#[trigger] trimmed@[m])@ == trim_spec(history@[m].command@),
    {
        trimmed.push(chars_of(trim(history[k].command.as_str()).as_str()));
    }
    let needle = chars_of(line_lower);
    let mut keyed: Vec<(SortKey, SearchSlot)> = Vec::new();
    for i in 0..n
        invariant
            n == history@.len(),
            commands_lower@.len() == n,
            lowers == views(commands_lower@),
            trimmed@.len() == n,
            forall|m: int| 0 <= m < n ==> (#[trigger] trimmed@[m])@ == trim_spec(history@[m].command@),
            needle@ == line_lower@,
            keyed@.map_values(|p: (SortKey, SearchSlot)| (p.0@, p.1)) == search_candidates_lowered(
                history@,
                lowers,
                line_lower@,
                i as int,
            ),
    {
        let mut later = false;
        let mut j = i + 1;
        while j < n
            invariant
                i < n,
                i + 1 <= j <= n,
                n == history@.len(),
                trimmed@.len() == n,
                forall|m: int| 0 <= m < n ==> (#[trigger] trimmed@[m])@ == trim_spec(history@[m].command@),
                later == exists|k: int| i < k < j && trim_spec(#[trigger] history@[k].command@) == trim_spec(
                    history@[i as int].command@,
                ),
            decreases n - j,
        {
            if chars_equal(&trimmed[j], &trimmed[i]) {
                later = true;
            }
            j += 1;
        }
        assert(later == superseded(history@, i as int));
        if !later {
            let e = &history[i];
            let lower = chars_of(commands_lower[i].as_str());
            assert(lowers[i as int] == commands_lower@[i as int]@);
            match matching_group(&lower, &needle) {
                Some(g) => {
                    let key = SortKey {
                        group: g,
                        rank: 0,
                        recency: e.timestamp,
                        text: Vec::new(),
                        len: e.command.as_str().len(),
                    };
                    let slot = SearchSlot {
                        name: e.command.clone(),
                        timestamp: e.timestamp,
                        success: e.success,
                    };
                    let ghost before = keyed@;
                    keyed.push((key, slot));
                    assert(keyed@.map_values(|p: (SortKey, SearchSlot)| (p.0@, p.1))
                        =~= before.map_values(|p: (SortKey, SearchSlot)| (p.0@, p.1)).push(
                        (key@, slot),
                    ));
                },
                None => {},
            }
        }
    }
    let sorted = sort_by_key(keyed);
    strip_keys(sorted)
}

/// Searches the history for `line`. Of several entries with the same command
/// (ignoring surrounding whitespace) only the latest counts. Results are the
/// commands that contain `line` (ignoring case): those that start with it
/// first, then newest first, then shortest first.
pub fn search_history(history: &Vec<HistoryEntry>, line: &str) -> (r: Vec<SearchSlot>)
    ensures
        r@ == stable_sort(search_candidates(history@, line@, history@.len() as int)).map_values(
            |p: (KeyView, SearchSlot)| p.1,
        ),
{
    let mut lowers: Vec<String> = Vec::new();
    for k in 0..history.len()
        invariant
            views(lowers@) == commands_lowercase(history@.take(k as int)),
    {
        let lower = to_lowercase(history[k].command.as_str());
        let ghost before = lowers@;
        lowers.push(lower);
        assert(views(lowers@) =~= views(before).push(lower@));
        assert(commands_lowercase(history@.take(k + 1)) =~= commands_lowercase(history@.take(k as int)).push(
            lowercase(history@[k as int].command@),
        ));
    }
    assert(history@.take(history.len() as int) =~= history@);
    let line_lower = to_lowercase(line);
    search_history_lowered(history, &lowers, line_lower.as_str())
}

/// The result that entry `i` of `h` gives.
pub open spec fn slot_of(h: Seq<HistoryEntry>, i: int) -> SearchSlot {
    SearchSlot { name: h[i].command, timestamp: h[i].timestamp, success: h[i].success }
}

/// Each of the candidates `c` is the result of an entry among the first `n`
/// that no later entry repeats, and no two have the same trimmed command.
spec fn from_latest(h: Seq<HistoryEntry>, x: SearchSlot, n: int) -> bool {
    exists|i: int| 0 <= i < n && x == #[trigger] slot_of(h, i) && !superseded(h, i)
}

spec fn candidates_latest(h: Seq<HistoryEntry>, c: Seq<(KeyView, SearchSlot)>, n: int) -> bool {
    &&& forall|k: int| 0 <= k < c.len() ==> from_latest(h, (#[trigger] c[k]).1, n)
    &&& forall|a: int, b: int|
        0 <= a < b < c.len() ==> trim_spec((#[trigger] c[a]).1.name@) != trim_spec((#[trigger] c[b]).1.name@)
}

proof fn lemma_latest_push(h: Seq<HistoryEntry>, prev: Seq<(KeyView, SearchSlot)>, x: (KeyView, SearchSlot), n: int)
    requires
        1 <= n <= h.len(),
        candidates_latest(h, prev, n - 1),
        x.1 == slot_of(h, n - 1),
        !superseded(h, n - 1),
    ensures
        candidates_latest(h, prev.push(x), n),
{
    let c = prev.push(x);
    assert forall|k: int| 0 <= k < c.len() implies from_latest(h, (#[trigger] c[k]).1, n) by {
        if k < prev.len() {
            assert(c[k] == prev[k]);
            assert(from_latest(h, prev[k].1, n - 1));
                let i = choose|i: int| 0 <= i < n - 1 && prev[k].1 == #[trigger] slot_of(h, i) && !superseded(h, i);
            assert(0 <= i < n && c[k].1 == slot_of(h, i) && !superseded(h, i));
        } else {
            assert(c[k] == x);
            assert(0 <= n - 1 < n && c[k].1 == slot_of(h, n - 1) && !superseded(h, n - 1));
        }
    }
    assert forall|a: int, b: int| 0 <= a < b < c.len() implies trim_spec((#[trigger] c[a]).1.name@) != trim_spec(
        (#[trigger] c[b]).1.name@,
    ) by {
        assert(c[a] == prev[a]);
        if b < prev.len() {
            assert(c[b] == prev[b]);
            assert(trim_spec(prev[a].1.name@) != trim_spec(prev[b].1.name@));
        } else {
            assert(c[b] == x);
            assert(from_latest(h, prev[a].1, n - 1));
            let i = choose|i: int| 0 <= i < n - 1 && prev[a].1 == #[trigger] slot_of(h, i) && !superseded(h, i);
            if trim_spec(h[n - 1].command@) == trim_spec(h[i].command@) {
                assert(superseded(h, i));
            }
        }
    }
}

proof fn lemma_candidates_latest(h: Seq<HistoryEntry>, lowers: Seq<Seq<char>>, line_lower: Seq<char>, n: int)
    requires
        0 <= n <= h.len(),
    ensures
        candidates_latest(h, search_candidates_lowered(h, lowers, line_lower, n), n),
    decreases n,
{
    if n > 0 {
        lemma_candidates_latest(h, lowers, line_lower, n - 1);
        let prev = search_candidates_lowered(h, lowers, line_lower, n - 1);
        let c = search_candidates_lowered(h, lowers, line_lower, n);
        if superseded(h, n - 1) {
            assert(c == prev);
        } else {
            match group_of(lowers[n - 1], line_lower) {
                Some(g) => {
                    assert(c.len() == prev.len() + 1);
                    lemma_latest_push(h, prev, c.last(), n);
                    assert(c == prev.push(c.last()));
                },
                None => {
                    assert(c == prev);
                },
            }
        }
        if c == prev {
            assert forall|k: int| 0 <= k < c.len() implies from_latest(h, (#[trigger] c[k]).1, n) by {
                assert(from_latest(h, prev[k].1, n - 1));
                let i = choose|i: int| 0 <= i < n - 1 && prev[k].1 == #[trigger] slot_of(h, i) && !superseded(h, i);
                assert(0 <= i < n && c[k].1 == slot_of(h, i) && !superseded(h, i));
            }
            assert forall|a: int, b: int| 0 <= a < b < c.len() implies trim_spec((#[trigger] c[a]).1.name@)
                != trim_spec((#[trigger] c[b]).1.name@) by {
                assert(trim_spec(prev[a].1.name@) != trim_spec(prev[b].1.name@));
            }
            assert(candidates_latest(h, c, n));
        } else {
            assert(candidates_latest(h, c, n));
        }
    } else {
        assert(search_candidates_lowered(h, lowers, line_lower, n).len() == 0);
    }
}

/// A history search lists each command (ignoring surrounding whitespace) at
/// most once, and each result is the last entry of the history with its
/// command: its text, time and outcome.
pub proof fn lemma_search_latest_only(h: Seq<HistoryEntry>, lowers: Seq<Seq<char>>, line_lower: Seq<char>)
    ensures
        ({
            let r = stable_sort(search_candidates_lowered(h, lowers, line_lower, h.len() as int)).map_values(
                |p: (KeyView, SearchSlot)| p.1,
            );
            &&& forall|a: int, b: int|
                0 <= a < b < r.len() ==> trim_spec((#[trigger] r[a]).name@) != trim_spec((#[trigger] r[b]).name@)
            &&& forall|k: int|
                0 <= k < r.len() ==> exists|i: int|
                    0 <= i < h.len() && #[trigger] r[k] == slot_of(h, i) && forall|j: int|
                        i < j < h.len() ==> trim_spec(#[trigger] h[j].command@) != trim_spec(h[i].command@)
        }),
{
    broadcast use vstd::seq_lib::group_to_multiset_ensures;

    let c = search_candidates_lowered(h, lowers, line_lower, h.len() as int);
    let s = stable_sort(c);
    let r = s.map_values(|p: (KeyView, SearchSlot)| p.1);
    lemma_candidates_latest(h, lowers, line_lower, h.len() as int);
    crate::sorting::lemma_stable_sort_ok(c);
    assert forall|a: int, b: int| 0 <= a < c.len() && 0 <= b < c.len() && a != b implies c[a] != c[b] by {
        if a < b {
            assert(trim_spec(c[a].1.name@) != trim_spec(c[b].1.name@));
        } else {
            assert(trim_spec(c[b].1.name@) != trim_spec(c[a].1.name@));
        }
    }
    assert(c.no_duplicates());
    c.lemma_multiset_has_no_duplicates();
    s.lemma_multiset_has_no_duplicates_conv();
    assert forall|k: int| 0 <= k < s.len() implies exists|m: int| 0 <= m < c.len() && c[m] == #[trigger] s[k] by {
        assert(s.to_multiset().count(s[k]) > 0);
        assert(c.to_multiset().count(s[k]) > 0);
        assert(c.contains(s[k]));
    }
    assert forall|a: int, b: int| 0 <= a < b < r.len() implies trim_spec((#[trigger] r[a]).name@) != trim_spec(
        (#[trigger] r[b]).name@,
    ) by {
        let ma = choose|m: int| 0 <= m < c.len() && c[m] == s[a];
        let mb = choose|m: int| 0 <= m < c.len() && c[m] == s[b];
        assert(s[a] != s[b]);
        assert(ma != mb);
        if ma < mb {
            assert(trim_spec(c[ma].1.name@) != trim_spec(c[mb].1.name@));
        } else {
            assert(trim_spec(c[mb].1.name@) != trim_spec(c[ma].1.name@));
        }
    }
    assert forall|k: int| 0 <= k < r.len() implies exists|i: int|
        0 <= i < h.len() && #[trigger] r[k] == slot_of(h, i) && forall|j: int|
            i < j < h.len() ==> trim_spec(#[trigger] h[j].command@) != trim_spec(h[i].command@) by {
        let m = choose|m: int| 0 <= m < c.len() && c[m] == s[k];
        assert(c[m] == s[k]);
        assert(from_latest(h, c[m].1, h.len() as int));
        let i = choose|i: int| 0 <= i < h.len() && c[m].1 == #[trigger] slot_of(h, i) && !superseded(h, i);
        assert(r[k] == slot_of(h, i));
    }
}

/// The commands that a fresh history starts with.
pub open spec fn default_commands() -> Seq<Seq<char>> {
    seq![
        "viewport().size_changed"@,
        "tree().create_timer(1.0).timeout"@,
        "viewport().set_scaling_3d_scale(0.1)"@,
        "Engine.max_fps = 30"@,
        "%ConsoleLineEdit.modulate = Color.ORANGE"@,
        ":for x 1 4 :for y 1 4 :for z 1 4 var s = MeshInstance3D.new();s.mesh = SphereMesh.new();add_child(s);s.global_position = Vector3({x},{y},{z})"@,
        ":node reload CrabbyConsole"@,
        "DisplayServer.beep()"@,
    ]
}

fn default_entry(command: &str, now: i128) -> (r: HistoryEntry)
    ensures
        r.command@ == command@,
        r.timestamp == now,
        r.success,
        r.execution_time == 0,
        r.async_wait_time is None,
        r.signal_wait_time is None,
{
    HistoryEntry {
        timestamp: now,
        command: crate::text::string_of(&chars_of(command)),
        success: true,
        execution_time: 0,
        async_wait_time: None,
        signal_wait_time: None,
    }
}

/// The entries a history starts with when none could be read: a few useful
/// example commands, all completed at `now`, successful and instantaneous.
pub fn get_default_history_entries(now: i128) -> (r: Vec<HistoryEntry>)
    ensures
        r@.len() == default_commands().len(),
        forall|k: int|
            0 <= k < r@.len() ==> {
                &&& (#[trigger] r@[k]).command@ == default_commands()[k]
                &&& r@[k].timestamp == now
                &&& r@[k].success
                &&& r@[k].execution_time == 0
                &&& r@[k].async_wait_time is None
                &&& r@[k].signal_wait_time is None
            },
{
    let mut v: Vec<HistoryEntry> = Vec::new();
    v.push(default_entry("viewport().size_changed", now));
    v.push(default_entry("tree().create_timer(1.0).timeout", now));
    v.push(default_entry("viewport().set_scaling_3d_scale(0.1)", now));
    v.push(default_entry("Engine.max_fps = 30", now));
    v.push(default_entry("%ConsoleLineEdit.modulate = Color.ORANGE", now));
    v.push(default_entry(
        ":for x 1 4 :for y 1 4 :for z 1 4 var s = MeshInstance3D.new();s.mesh = SphereMesh.new();add_child(s);s.global_position = Vector3({x},{y},{z})",
        now,
    ));
    v.push(default_entry(":node reload CrabbyConsole", now));
    v.push(default_entry("DisplayServer.beep()", now));
    v
}

/// The history after reading the history file, and what is to be written
/// back to it.
pub struct LoadedHistory {
    pub entries: Vec<HistoryEntry>,
    pub to_save: Vec<HistoryEntry>,
}

/// The history once the file was read: its entries; or, when it could not be
/// read, the default entries (completed at `now`), which are then also saved.
pub fn history_after_load(read: Result<Vec<HistoryEntry>, String>, now: i128) -> (r: LoadedHistory)
    ensures
        read is Ok ==> r.entries@ == read->Ok_0@ && r.to_save@.len() == 0,
        read is Err ==> r.entries@.len() == default_commands().len() && r.to_save@.len()
            == default_commands().len() && forall|k: int|
            0 <= k < r.entries@.len() ==> {
                &&& (#[trigger] r.entries@[k]).command@ == default_commands()[k]
                &&& r.to_save@[k].command@ == default_commands()[k]
                &&& r.entries@[k].timestamp == now && r.to_save@[k].timestamp == now
                &&& r.entries@[k].success && r.to_save@[k].success
                &&& r.entries@[k].execution_time == 0 && r.to_save@[k].execution_time == 0
                &&& r.entries@[k].async_wait_time is None && r.to_save@[k].async_wait_time is None
                &&& r.entries@[k].signal_wait_time is None && r.to_save@[k].signal_wait_time is None
            },
{
    match read {
        Ok(entries) => LoadedHistory { entries, to_save: Vec::new() },
        Err(_) => LoadedHistory {
            entries: get_default_history_entries(now),
            to_save: get_default_history_entries(now),
        },
    }
}

/// The history as the console keeps it: the entries and the position of the
/// entry last recalled (one past the end after a submission).
pub struct ConsoleHistory {
    pub entries: Vec<HistoryEntry>,
    pub index: usize,
}

/// `a + d`, kept within the range of `usize`.
pub open spec fn saturating_offset(a: usize, d: i32) -> int {
    if a + d < 0 {
        0
    } else if a + d > usize::MAX {
        usize::MAX as int
    } else {
        a + d
    }
}

impl ConsoleHistory {
    /// An empty history whose position is past any entry.
    pub fn new() -> (r: Self)
        ensures
            r.entries@.len() == 0,
            r.index == usize::MAX,
    {
        ConsoleHistory { entries: Vec::new(), index: usize::MAX }
    }

    /// Moves `dist` entries through the history (negative is older) and returns
    /// the command found there. The position stops at the first and last entry.
    pub fn move_by(&mut self, dist: i32) -> (r: &String)
        requires
            old(self).entries@.len() > 0,
        ensures
            final(self).entries == old(self).entries,
            final(self).index == ({
                let t = saturating_offset(old(self).index, dist);
                let last = old(self).entries@.len() - 1;
                if t < last {
                    t
                } else {
                    last
                }
            }),
            *r == final(self).entries@[final(self).index as int].command,
    {
        let t: usize = if dist >= 0 {
            let d = dist as usize;
            if self.index > usize::MAX - d {
                usize::MAX
            } else {
                self.index + d
            }
        } else {
            let d = (-(dist as i64)) as usize;
            if self.index < d {
                0
            } else {
                self.index - d
            }
        };
        let last = self.entries.len() - 1;
        self.index = if t < last {
            t
        } else {
            last
        };
        &self.entries[self.index].command
    }

    /// Records a finished command. It is appended unless it repeats the latest
    /// entry's command; either way the position moves past the last entry.
    /// Returns whether it was appended (and so should be written to disk).
    pub fn record(&mut self, entry: HistoryEntry) -> (written: bool)
        ensures
            written == (old(self).entries@.len() == 0 || old(self).entries@.last().command@
                != entry.command@),
            final(self).entries@ == (if written {
                old(self).entries@.push(entry)
            } else {
                old(self).entries@
            }),
            final(self).index == final(self).entries@.len(),
    {
        let n = self.entries.len();
        let written = if n == 0 {
            true
        } else {
            !chars_equal(
                &chars_of(self.entries[n - 1].command.as_str()),
                &chars_of(entry.command.as_str()),
            )
        };
        if written {
            self.entries.push(entry);
        }
        self.index = self.entries.len();
        written
    }
}

/// The command in a submitted line: the line without leading whitespace, or
/// none when nothing is left (trailing whitespace is kept, since it matters to
/// autocompletion).
pub fn prepare_submission(text: &str) -> (r: Option<String>)
    ensures
        match r {
            Some(c) => c@ == trim_start_spec(text@) && c@.len() > 0,
            None => trim_start_spec(text@).len() == 0,
        },
{
    let t = trim_start(text);
    if t.as_str().is_empty() {
        None
    } else {
        Some(t)
    }
}

/// Why a command ended without a result.
#[derive(Debug, PartialEq, Eq)]
pub enum InterruptionKind {
    ByUser,
    Panicked,
    ConsoleFreed,
}

/// The message printed for an interrupted command.
pub fn interruption_message(kind: &InterruptionKind) -> (r: &'static str)
    ensures
        r@ == match kind {
            InterruptionKind::ByUser => "Interrupted by user."@,
            InterruptionKind::Panicked => "Panicked, see stdout for details."@,
            InterruptionKind::ConsoleFreed => "Console was freed."@,
        },
{
    match kind {
        InterruptionKind::ByUser => "Interrupted by user.",
        InterruptionKind::Panicked => "Panicked, see stdout for details.",
        InterruptionKind::ConsoleFreed => "Console was freed.",
    }
}

/// What a running command is waiting for.
#[derive(Debug, Clone, Copy, PartialEq, Eq, Structural)]
pub enum Waiting {
    Async,
    Signal,
}

/// The line shown while a command waits.
pub fn waiting_message(w: Waiting) -> (r: &'static str)
    ensures
        r@ == match w {
            Waiting::Async => "Waiting for async... (press Ctrl+C to cancel)"@,
            Waiting::Signal => "Waiting for signal... (press Ctrl+C to cancel)"@,
        },
{
    match w {
        Waiting::Async => "Waiting for async... (press Ctrl+C to cancel)",
        Waiting::Signal => "Waiting for signal... (press Ctrl+C to cancel)",
    }
}

/// How long a command took: its execution time, and the time it waited for
/// an asynchronous result and for a signal when it did (each already written
/// out).
pub open spec fn timing_spec(exec: Seq<char>, async_wait: Option<Seq<char>>, signal_wait: Option<Seq<char>>) -> Seq<
    char,
> {
    " (took "@ + exec + match async_wait {
        Some(a) => " + "@ + a + " async wait time"@,
        None => seq![],
    } + match signal_wait {
        Some(w) => " + "@ + w + " signal wait time"@,
        None => seq![],
    } + ")"@
}

/// The timing shown after a result.
pub fn timing_text(exec: &str, async_wait: Option<&str>, signal_wait: Option<&str>) -> (r: String)
    ensures
        r@ == timing_spec(
            exec@,
            match async_wait {
                Some(a) => Some(a@),
                None => None,
            },
            match signal_wait {
                Some(w) => Some(w@),
                None => None,
            },
        ),
{
    let mut out: Vec<char> = Vec::new();
    crate::text::push_chars(&mut out, " (took ");
    crate::text::push_chars(&mut out, exec);
    if let Some(a) = async_wait {
        crate::text::push_chars(&mut out, " + ");
        crate::text::push_chars(&mut out, a);
        crate::text::push_chars(&mut out, " async wait time");
    }
    if let Some(w) = signal_wait {
        crate::text::push_chars(&mut out, " + ");
        crate::text::push_chars(&mut out, w);
        crate::text::push_chars(&mut out, " signal wait time");
    }
    crate::text::push_chars(&mut out, ")");
    proof {
        let a = match async_wait {
            Some(a) => Some(a@),
            None => None,
        };
        let w = match signal_wait {
            Some(w) => Some(w@),
            None => None,
        };
        assert(out@ =~= timing_spec(exec@, a, w));
    }
    crate::text::string_of(&out)
}

} // verus!
