//! Autocompletion: the kinds of suggestions, how they are filtered against what
//! the user typed, and the order they are shown in.

use vstd::prelude::*;
use crate::sorting::{KeyView, SortKey, lemma_stable_sort_ok, sort_by_key, sorted_by_key, stable_sort};
use crate::text::{
    chars_of, contains, has_infix, has_prefix, lowercase, starts_with, string_of, to_lowercase,
};

verus! {

/// Godot's ordinal of the `NIL` variant type.
pub const VARIANT_TYPE_NIL: i64 = 0;

/// Godot's ordinal of the `OBJECT` variant type.
pub const VARIANT_TYPE_OBJECT: i64 = 24;

/// A Godot type: the variant type's ordinal and name, and the class name when
/// the type is `OBJECT`.
pub struct VariantTypePair {
    pub typ: i64,
    pub variant_name: String,
    pub class_name: String,
}

impl VariantTypePair {
    /// The name shown to the user: the class name for objects, else the variant type's name.
    pub fn nice_variant_name(&self) -> (r: &String)
        ensures
            r@ == (if self.typ == VARIANT_TYPE_OBJECT {
                self.class_name@
            } else {
                self.variant_name@
            }),
    {
        if self.typ == VARIANT_TYPE_OBJECT {
            &self.class_name
        } else {
            &self.variant_name
        }
    }
}

/// What a suggestion stands for.
pub enum AutocompleteType {
    /// A method: its arguments and return type.
    Method(Vec<(String, VariantTypePair)>, VariantTypePair),
    /// A global utility function: its arguments and return type.
    UtilityFunc(Vec<(String, VariantTypePair)>, VariantTypePair),
    Property(VariantTypePair),
    Class { is_global: bool, is_abstract: bool },
    BuiltInType,
    /// A signal: its arguments and return type.
    Signal(Vec<(String, VariantTypePair)>, VariantTypePair),
    /// A completion of a console command.
    Clap,
}

/// One suggestion.
pub struct AutocompleteSlot {
    pub name: String,
    /// How many characters of the typed line stay in front of the completion.
    pub indentation: usize,
    pub help: Option<String>,
    pub typ: AutocompleteType,
}

/// Priority of a suggestion (lower comes first): properties, then methods (those
/// starting with `_` later), utility functions, globals, classes, signals,
/// built-in types and abstract classes; console commands come first of all.
pub open spec fn rank_spec(typ: AutocompleteType, name: Seq<char>) -> i64 {
    match typ {
        AutocompleteType::Method(_, _) => if name.len() > 0 && name[0] == '_' {
            25
        } else {
            20
        },
        AutocompleteType::UtilityFunc(_, _) => 30,
        AutocompleteType::Property(_) => 10,
        AutocompleteType::Class { is_global, is_abstract } => if is_global {
            40
        } else if is_abstract {
            100
        } else {
            60
        },
        AutocompleteType::BuiltInType => 80,
        AutocompleteType::Signal(_, _) => 70,
        AutocompleteType::Clap => 0,
    }
}

pub fn rank(typ: &AutocompleteType, name: &String) -> (r: i64)
    ensures
        r == rank_spec(*typ, name@),
{
    match typ {
        AutocompleteType::Method(_, _) => {
            let v = chars_of(name.as_str());
            if v.len() > 0 && v[0] == '_' {
                25
            } else {
                20
            }
        },
        AutocompleteType::UtilityFunc(_, _) => 30,
        AutocompleteType::Property(_) => 10,
        AutocompleteType::Class { is_global, is_abstract } => {
            if *is_global {
                40
            } else if *is_abstract {
                100
            } else {
                60
            }
        },
        AutocompleteType::BuiltInType => 80,
        AutocompleteType::Signal(_, _) => 70,
        AutocompleteType::Clap => 0,
    }
}

/// 0 when `needle_lower` starts `hay_lower`, 1 when it occurs elsewhere in it,
/// none otherwise.
pub open spec fn group_of(hay_lower: Seq<char>, needle_lower: Seq<char>) -> Option<u8> {
    if has_prefix(hay_lower, needle_lower) {
        Some(0u8)
    } else if has_infix(hay_lower, needle_lower) {
        Some(1u8)
    } else {
        None
    }
}

/// The group of `hay` against `needle`, both lower-cased.
pub open spec fn match_group(hay: Seq<char>, needle: Seq<char>) -> Option<u8> {
    group_of(lowercase(hay), lowercase(needle))
}

/// The group of a lower-cased text against a lower-cased needle.
pub fn matching_group(hay_lower: &Vec<char>, needle_lower: &Vec<char>) -> (r: Option<u8>)
    ensures
        r == group_of(hay_lower@, needle_lower@),
{
    if starts_with(hay_lower, needle_lower) {
        Some(0)
    } else if contains(hay_lower, needle_lower) {
        Some(1)
    } else {
        None
    }
}

/// Items paired with texts, the texts taken by their view.
pub open spec fn lowered_view<T>(v: Seq<(T, String)>) -> Seq<(T, Seq<char>)> {
    v.map_values(|p: (T, String)| (p.0, p.1@))
}

/// The suggestions (each with its lower-cased name) that match the lower-cased
/// line, each with the key it is ordered by.
pub open spec fn gdscript_candidates_lowered(
    entries: Seq<(AutocompleteSlot, Seq<char>)>,
    line_lower: Seq<char>,
) -> Seq<(KeyView, AutocompleteSlot)>
    decreases entries.len(),
{
    if entries.len() == 0 {
        seq![]
    } else {
        let rest = gdscript_candidates_lowered(entries.drop_last(), line_lower);
        let e = entries.last();
        match group_of(e.1, line_lower) {
            Some(g) => rest.push(
                (
                    KeyView { group: g, rank: rank_spec(e.0.typ, e.0.name@), recency: 0, text: e.1, len: 0 },
                    e.0,
                ),
            ),
            None => rest,
        }
    }
}

/// Each suggestion paired with its lower-cased name.
pub open spec fn slots_with_lowercase(slots: Seq<AutocompleteSlot>) -> Seq<(AutocompleteSlot, Seq<char>)> {
    slots.map_values(|s: AutocompleteSlot| (s, lowercase(s.name@)))
}

/// The suggestions that match `line`, each with the key it is ordered by.
pub open spec fn gdscript_candidates(slots: Seq<AutocompleteSlot>, line: Seq<char>) -> Seq<
    (KeyView, AutocompleteSlot),
> {
    gdscript_candidates_lowered(slots_with_lowercase(slots), lowercase(line))
}

/// Keeps the suggestions whose lower-cased name contains `line_lower`, and
/// orders them: names that start with it first, then by rank, then by the
/// lower-cased name; ties keep their order. Each suggestion comes with its
/// lower-cased name.
pub fn rank_gdscript_slots_lowered(entries: Vec<(AutocompleteSlot, String)>, line_lower: &str) -> (r: Vec<
    AutocompleteSlot,
>)
    ensures
        r@ == stable_sort(gdscript_candidates_lowered(lowered_view(entries@), line_lower@)).map_values(
            |p: (KeyView, AutocompleteSlot)| p.1,
        ),
{
    let needle = chars_of(line_lower);
    let ghost raw = entries@;
    let ghost input = lowered_view(raw);
    let mut rest = entries;
    let mut keyed: Vec<(SortKey, AutocompleteSlot)> = Vec::new();
    let mut i: usize = 0;
    let n = rest.len();
    while rest.len() > 0
        invariant
            n == raw.len(),
            input == lowered_view(raw),
            i + rest@.len() == n,
            rest@ == raw.skip(i as int),
            needle@ == line_lower@,
            keyed@.map_values(|p: (SortKey, AutocompleteSlot)| (p.0@, p.1)) == gdscript_candidates_lowered(
                input.take(i as int),
                line_lower@,
            ),
        decreases rest.len(),
    {
        let (slot, name_lower) = rest.remove(0);
        assert(raw[i as int] == (slot, name_lower)) by {
            assert(raw.skip(i as int)[0] == raw[i as int]);
        }
        assert(input.take(i + 1).drop_last() =~= input.take(i as int));
        assert(input.take(i + 1).last() == (slot, name_lower@));
        let lower = chars_of(name_lower.as_str());
        let g = matching_group(&lower, &needle);
        match g {
            Some(g) => {
                let rk = rank(&slot.typ, &slot.name);
                let key = SortKey { group: g, rank: rk, recency: 0, text: lower, len: 0 };
                let ghost before = keyed@;
                keyed.push((key, slot));
                assert(keyed@.map_values(|p: (SortKey, AutocompleteSlot)| (p.0@, p.1))
                    =~= before.map_values(|p: (SortKey, AutocompleteSlot)| (p.0@, p.1)).push(
                    (key@, slot),
                ));
            },
            None => {},
        }
        assert(raw.skip(i as int).drop_first() =~= raw.skip(i + 1));
        i += 1;
    }
    assert(input.take(n as int) =~= input);
    let sorted = sort_by_key(keyed);
    strip_keys(sorted)
}

/// Pairs each suggestion with its lower-cased name.
fn pair_slots_with_lowercase(slots: Vec<AutocompleteSlot>) -> (r: Vec<(AutocompleteSlot, String)>)
    ensures
        lowered_view(r@) == slots_with_lowercase(slots@),
{
    let ghost input = slots@;
    let mut rest = slots;
    let mut out: Vec<(AutocompleteSlot, String)> = Vec::new();
    let mut i: usize = 0;
    let n = rest.len();
    while rest.len() > 0
        invariant
            n == input.len(),
            i + rest@.len() == n,
            rest@ == input.skip(i as int),
            lowered_view(out@) == slots_with_lowercase(input.take(i as int)),
        decreases rest.len(),
    {
        let slot = rest.remove(0);
        assert(input[i as int] == slot) by {
            assert(input.skip(i as int)[0] == input[i as int]);
        }
        let lower = to_lowercase(slot.name.as_str());
        let ghost before = out@;
        out.push((slot, lower));
        assert(lowered_view(out@) =~= lowered_view(before).push((slot, lower@)));
        assert(slots_with_lowercase(input.take(i + 1)) =~= slots_with_lowercase(input.take(i as int)).push(
            (slot, lowercase(slot.name@)),
        ));
        assert(input.skip(i as int).drop_first() =~= input.skip(i + 1));
        i += 1;
    }
    assert(input.take(n as int) =~= input);
    out
}

/// Keeps the suggestions whose name contains `line` (ignoring case), and orders
/// them: names that start with `line` first, then by rank, then alphabetically
/// (ignoring case); ties keep their order.
pub fn rank_gdscript_slots(haystack: Vec<AutocompleteSlot>, line: &str) -> (r: Vec<
    AutocompleteSlot,
>)
    ensures
        r@ == stable_sort(gdscript_candidates(haystack@, line@)).map_values(
            |p: (KeyView, AutocompleteSlot)| p.1,
        ),
{
    let entries = pair_slots_with_lowercase(haystack);
    let line_lower = to_lowercase(line);
    rank_gdscript_slots_lowered(entries, line_lower.as_str())
}

/// The items of keyed pairs, in order.
pub fn strip_keys<T>(v: Vec<(SortKey, T)>) -> (r: Vec<T>)
    ensures
        r@ == v@.map_values(|p: (SortKey, T)| (p.0@, p.1)).map_values(|p: (KeyView, T)| p.1),
{
    let ghost input = v@;
    let mut rest = v;
    let mut out: Vec<T> = Vec::new();
    let mut i: usize = 0;
    let n = rest.len();
    while rest.len() > 0
        invariant
            n == input.len(),
            i + rest@.len() == n,
            rest@ == input.skip(i as int),
            out@ == input.take(i as int).map_values(|p: (SortKey, T)| p.1),
        decreases rest.len(),
    {
        let p = rest.remove(0);
        assert(input[i as int] == p) by {
            assert(input.skip(i as int)[0] == input[i as int]);
        }
        out.push(p.1);
        assert(input.take(i + 1).map_values(|p: (SortKey, T)| p.1) =~= input.take(
            i as int,
        ).map_values(|p: (SortKey, T)| p.1).push(input[i as int].1));
        assert(input.skip(i as int).drop_first() =~= input.skip(i + 1));
        i += 1;
    }
    assert(input.take(n as int) =~= input);
    assert(out@ =~= input.map_values(|p: (SortKey, T)| (p.0@, p.1)).map_values(
        |p: (KeyView, T)| p.1,
    ));
    out
}

/// The items (each with its lower-cased text) that match the lower-cased
/// `current_lower`, each with the key it is ordered by.
pub open spec fn completion_candidates_lowered(entries: Seq<(String, Seq<char>)>, current_lower: Seq<char>) -> Seq<
    (KeyView, String),
>
    decreases entries.len(),
{
    if entries.len() == 0 {
        seq![]
    } else {
        let rest = completion_candidates_lowered(entries.drop_last(), current_lower);
        let e = entries.last();
        match group_of(e.1, current_lower) {
            Some(g) => rest.push((KeyView { group: g, rank: 0, recency: 0, text: e.0@, len: 0 }, e.0)),
            None => rest,
        }
    }
}

/// Each item paired with its lower-cased text.
pub open spec fn with_lowercase(items: Seq<String>) -> Seq<(String, Seq<char>)> {
    items.map_values(|s: String| (s, lowercase(s@)))
}

/// The items that match `current`, each with the key it is ordered by.
pub open spec fn completion_candidates(items: Seq<String>, current: Seq<char>) -> Seq<(KeyView, String)> {
    completion_candidates_lowered(with_lowercase(items), lowercase(current))
}

/// Completion candidates, given each item with its lower-cased text and the
/// lower-cased text typed: the items whose lower-cased text contains it, those
/// that start with it first, each group in alphabetical order.
pub fn rank_completions_lowered(current_lower: &str, entries: Vec<(String, String)>) -> (r: Vec<String>)
    ensures
        r@ == stable_sort(completion_candidates_lowered(lowered_view(entries@), current_lower@)).map_values(
            |p: (KeyView, String)| p.1,
        ),
{
    let needle = chars_of(current_lower);
    let ghost raw = entries@;
    let ghost input = lowered_view(raw);
    let mut rest = entries;
    let mut keyed: Vec<(SortKey, String)> = Vec::new();
    let mut i: usize = 0;
    let n = rest.len();
    while rest.len() > 0
        invariant
            n == raw.len(),
            input == lowered_view(raw),
            i + rest@.len() == n,
            rest@ == raw.skip(i as int),
            needle@ == current_lower@,
            keyed@.map_values(|p: (SortKey, String)| (p.0@, p.1)) == completion_candidates_lowered(
                input.take(i as int),
                current_lower@,
            ),
        decreases rest.len(),
    {
        let (item, item_lower) = rest.remove(0);
        assert(raw[i as int] == (item, item_lower)) by {
            assert(raw.skip(i as int)[0] == raw[i as int]);
        }
        assert(input.take(i + 1).drop_last() =~= input.take(i as int));
        assert(input.take(i + 1).last() == (item, item_lower@));
        let lower = chars_of(item_lower.as_str());
        let g = matching_group(&lower, &needle);
        match g {
            Some(g) => {
                let key = SortKey {
                    group: g,
                    rank: 0,
                    recency: 0,
                    text: chars_of(item.as_str()),
                    len: 0,
                };
                let ghost before = keyed@;
                keyed.push((key, item));
                assert(keyed@.map_values(|p: (SortKey, String)| (p.0@, p.1)) =~= before.map_values(
                    |p: (SortKey, String)| (p.0@, p.1),
                ).push((key@, item)));
            },
            None => {},
        }
        assert(raw.skip(i as int).drop_first() =~= raw.skip(i + 1));
        i += 1;
    }
    assert(input.take(n as int) =~= input);
    let sorted = sort_by_key(keyed);
    strip_keys(sorted)
}

/// Pairs each item with its lower-cased text.
pub(crate) fn pair_with_lowercase(items: &Vec<String>) -> (r: Vec<(String, String)>)
    ensures
        lowered_view(r@) == with_lowercase(items@),
{
    let mut out: Vec<(String, String)> = Vec::new();
    for k in 0..items.len()
        invariant
            lowered_view(out@) == with_lowercase(items@.take(k as int)),
    {
        let lower = to_lowercase(items[k].as_str());
        let ghost before = out@;
        out.push((items[k].clone(), lower));
        assert(lowered_view(out@) =~= lowered_view(before).push((items@[k as int], lower@)));
        assert(with_lowercase(items@.take(k + 1)) =~= with_lowercase(items@.take(k as int)).push(
            (items@[k as int], lowercase(items@[k as int]@)),
        ));
    }
    assert(items@.take(items.len() as int) =~= items@);
    out
}

/// Completion candidates for a command argument: the items that contain
/// `current` (ignoring case), those that start with it first, each group in
/// alphabetical order.
pub fn rank_completions(current: &str, items: Vec<String>) -> (r: Vec<String>)
    ensures
        r@ == stable_sort(completion_candidates(items@, current@)).map_values(
            |p: (KeyView, String)| p.1,
        ),
{
    let entries = pair_with_lowercase(&items);
    let current_lower = to_lowercase(current);
    rank_completions_lowered(current_lower.as_str(), entries)
}

proof fn lemma_completion_candidates_lowered_match(entries: Seq<(String, Seq<char>)>, current_lower: Seq<char>)
    requires
        forall|i: int| 0 <= i < entries.len() ==> #[trigger] entries[i].1 == lowercase(entries[i].0@),
    ensures
        forall|k: int|
            0 <= k < completion_candidates_lowered(entries, current_lower).len() ==> group_of(
                lowercase((#[trigger] completion_candidates_lowered(entries, current_lower)[k]).1@),
                current_lower,
            ) == Some(completion_candidates_lowered(entries, current_lower)[k].0.group),
    decreases entries.len(),
{
    if entries.len() > 0 {
        let d = entries.drop_last();
        assert forall|i: int| 0 <= i < d.len() implies #[trigger] d[i].1 == lowercase(d[i].0@) by {
            assert(d[i] == entries[i]);
        }
        lemma_completion_candidates_lowered_match(d, current_lower);
        assert(entries.last() == entries[entries.len() - 1]);
    }
}

proof fn lemma_completion_candidates_match(items: Seq<String>, current: Seq<char>)
    ensures
        forall|k: int|
            0 <= k < completion_candidates(items, current).len() ==> match_group(
                (#[trigger] completion_candidates(items, current)[k]).1@,
                current,
            ) == Some(completion_candidates(items, current)[k].0.group),
{
    lemma_completion_candidates_lowered_match(with_lowercase(items), lowercase(current));
}

proof fn lemma_gdscript_candidates_lowered_match(
    entries: Seq<(AutocompleteSlot, Seq<char>)>,
    line_lower: Seq<char>,
)
    requires
        forall|i: int| 0 <= i < entries.len() ==> #[trigger] entries[i].1 == lowercase(entries[i].0.name@),
    ensures
        forall|k: int|
            0 <= k < gdscript_candidates_lowered(entries, line_lower).len() ==> group_of(
                lowercase((#[trigger] gdscript_candidates_lowered(entries, line_lower)[k]).1.name@),
                line_lower,
            ) == Some(gdscript_candidates_lowered(entries, line_lower)[k].0.group),
    decreases entries.len(),
{
    if entries.len() > 0 {
        let d = entries.drop_last();
        assert forall|i: int| 0 <= i < d.len() implies #[trigger] d[i].1 == lowercase(d[i].0.name@) by {
            assert(d[i] == entries[i]);
        }
        lemma_gdscript_candidates_lowered_match(d, line_lower);
        assert(entries.last() == entries[entries.len() - 1]);
    }
}

proof fn lemma_gdscript_candidates_match(slots: Seq<AutocompleteSlot>, line: Seq<char>)
    ensures
        forall|k: int|
            0 <= k < gdscript_candidates(slots, line).len() ==> match_group(
                (#[trigger] gdscript_candidates(slots, line)[k]).1.name@,
                line,
            ) == Some(gdscript_candidates(slots, line)[k].0.group),
{
    lemma_gdscript_candidates_lowered_match(slots_with_lowercase(slots), lowercase(line));
}

proof fn lemma_sorted_groups<T>(s: Seq<(KeyView, T)>)
    requires
        sorted_by_key(s),
    ensures
        forall|a: int, b: int| 0 <= a < b < s.len() ==> (#[trigger] s[a]).0.group <= (#[trigger] s[b]).0.group,
{
    assert forall|a: int, b: int| 0 <= a < b < s.len() implies (#[trigger] s[a]).0.group <= (
    #[trigger] s[b]).0.group by {
        assert(!crate::sorting::key_lt(s[b].0, s[a].0));
    }
}

/// Every completion contains what was typed (ignoring case), and those that
/// start with it come before those that only contain it.
pub proof fn lemma_completions_prefix_first(items: Seq<String>, current: Seq<char>)
    ensures
        ({
            let r = stable_sort(completion_candidates(items, current));
            &&& forall|k: int| 0 <= k < r.len() ==> (#[trigger] match_group(r[k].1@, current)) is Some
            &&& forall|a: int, b: int|
                #![trigger r[a], r[b]]
                0 <= a < b < r.len() && match_group(r[b].1@, current) == Some(0u8) ==> match_group(
                    r[a].1@,
                    current,
                ) == Some(0u8)
        }),
{
    broadcast use vstd::seq_lib::group_to_multiset_ensures;

    let c = completion_candidates(items, current);
    let r = stable_sort(c);
    lemma_stable_sort_ok(c);
    lemma_completion_candidates_match(items, current);
    lemma_sorted_groups(r);
    assert forall|k: int| 0 <= k < r.len() implies match_group(r[k].1@, current) == Some(r[k].0.group) by {
        assert(r.to_multiset().count(r[k]) > 0);
        assert(c.to_multiset().count(r[k]) > 0);
        assert(c.contains(r[k]));
        let m = choose|m: int| 0 <= m < c.len() && c[m] == r[k];
        assert(match_group(c[m].1@, current) == Some(c[m].0.group));
    }
}

/// Every GDScript suggestion contains what was typed (ignoring case), and
/// those that start with it come before those that only contain it.
pub proof fn lemma_gdscript_prefix_first(slots: Seq<AutocompleteSlot>, line: Seq<char>)
    ensures
        ({
            let r = stable_sort(gdscript_candidates(slots, line));
            &&& forall|k: int| 0 <= k < r.len() ==> (#[trigger] match_group(r[k].1.name@, line)) is Some
            &&& forall|a: int, b: int|
                #![trigger r[a], r[b]]
                0 <= a < b < r.len() && match_group(r[b].1.name@, line) == Some(0u8) ==> match_group(
                    r[a].1.name@,
                    line,
                ) == Some(0u8)
        }),
{
    broadcast use vstd::seq_lib::group_to_multiset_ensures;

    let c = gdscript_candidates(slots, line);
    let r = stable_sort(c);
    lemma_stable_sort_ok(c);
    lemma_gdscript_candidates_match(slots, line);
    lemma_sorted_groups(r);
    assert forall|k: int| 0 <= k < r.len() implies match_group(r[k].1.name@, line) == Some(r[k].0.group) by {
        assert(r.to_multiset().count(r[k]) > 0);
        assert(c.to_multiset().count(r[k]) > 0);
        assert(c.contains(r[k]));
        let m = choose|m: int| 0 <= m < c.len() && c[m] == r[k];
        assert(match_group(c[m].1.name@, line) == Some(c[m].0.group));
    }
}

/// `s` ends with `p`.
pub open spec fn has_suffix(s: Seq<char>, p: Seq<char>) -> bool {
    p.len() <= s.len() && s.skip(s.len() - p.len()) == p
}

fn ends_with(s: &Vec<char>, p: &Vec<char>) -> (r: bool)
    ensures
        r == has_suffix(s@, p@),
{
    if p.len() > s.len() {
        return false;
    }
    let off = s.len() - p.len();
    let mut k: usize = 0;
    while k < p.len()
        invariant
            off + p.len() == s.len(),
            k <= p.len(),
            forall|j: int| 0 <= j < k ==> s@[off + j] == p@[j],
        decreases p.len() - k,
    {
        if s[off + k] != p[k] {
            assert(s@.skip(off as int)[k as int] != p@[k as int]);
            return false;
        }
        k += 1;
    }
    assert(s@.skip(off as int) =~= p@);
    true
}

/// A scene file, by its extension (ignoring case): `.tscn` or `.gltf`.
pub open spec fn is_scene_file(path: Seq<char>) -> bool {
    has_suffix(lowercase(path), ".tscn"@) || has_suffix(lowercase(path), ".gltf"@)
}

/// The scene files among `paths`, in order.
pub open spec fn scene_files(paths: Seq<String>) -> Seq<String> {
    paths.filter(|p: String| is_scene_file(p@))
}

/// The scene entries among `entries` (each an item with its lower-cased text),
/// by the extension of the lower-cased text: `.tscn` or `.gltf`.
pub open spec fn scene_entries(entries: Seq<(String, Seq<char>)>) -> Seq<(String, Seq<char>)> {
    entries.filter(|e: (String, Seq<char>)| has_suffix(e.1, ".tscn"@) || has_suffix(e.1, ".gltf"@))
}

/// Completion candidates for a scene file argument, given each resource with
/// its lower-cased path and the lower-cased text typed: the scene files among
/// them, ranked as other completions are.
pub fn scene_file_completer_lowered(current_lower: &str, entries: &Vec<(String, String)>) -> (r: Vec<String>)
    ensures
        r@ == stable_sort(
            completion_candidates_lowered(scene_entries(lowered_view(entries@)), current_lower@),
        ).map_values(|p: (KeyView, String)| p.1),
{
    let ghost input = lowered_view(entries@);
    let tscn = chars_of(".tscn");
    let gltf = chars_of(".gltf");
    let mut scenes: Vec<(String, String)> = Vec::new();
    for k in 0..entries.len()
        invariant
            input == lowered_view(entries@),
            tscn@ == ".tscn"@,
            gltf@ == ".gltf"@,
            lowered_view(scenes@) == input.take(k as int).filter(
                |e: (String, Seq<char>)| has_suffix(e.1, ".tscn"@) || has_suffix(e.1, ".gltf"@),
            ),
    {
        proof {
            assert(input.take(k + 1).drop_last() =~= input.take(k as int));
            assert(input.take(k + 1).last() == (entries@[k as int].0, entries@[k as int].1@));
            reveal_with_fuel(Seq::filter, 1);
        }
        let lower = chars_of(entries[k].1.as_str());
        if ends_with(&lower, &tscn) || ends_with(&lower, &gltf) {
            let ghost before = scenes@;
            scenes.push((entries[k].0.clone(), entries[k].1.clone()));
            assert(lowered_view(scenes@) =~= lowered_view(before).push(
                (entries@[k as int].0, entries@[k as int].1@),
            ));
        }
    }
    assert(input.take(entries.len() as int) =~= input);
    rank_completions_lowered(current_lower, scenes)
}

proof fn lemma_scene_entries(paths: Seq<String>)
    ensures
        with_lowercase(scene_files(paths)) == scene_entries(with_lowercase(paths)),
    decreases paths.len(),
{
    reveal_with_fuel(Seq::filter, 1);
    if paths.len() > 0 {
        let d = paths.drop_last();
        lemma_scene_entries(d);
        assert(with_lowercase(paths).drop_last() =~= with_lowercase(d));
        let last = paths.last();
        if is_scene_file(last@) {
            assert(with_lowercase(d.filter(|p: String| is_scene_file(p@)).push(last)) =~= with_lowercase(
                d.filter(|p: String| is_scene_file(p@)),
            ).push((last, lowercase(last@))));
        }
    } else {
        assert(with_lowercase(scene_files(paths)) =~= scene_entries(with_lowercase(paths)));
    }
}

/// Completion candidates for a scene file argument: the scene files among the
/// resources, ranked against `current` as other completions are.
pub fn scene_file_completer(current: &str, resources: &Vec<String>) -> (r: Vec<String>)
    ensures
        r@ == stable_sort(completion_candidates(scene_files(resources@), current@)).map_values(
            |p: (KeyView, String)| p.1,
        ),
{
    let entries = pair_with_lowercase(resources);
    let current_lower = to_lowercase(current);
    proof {
        lemma_scene_entries(resources@);
    }
    scene_file_completer_lowered(current_lower.as_str(), &entries)
}

/// A type's ordinal and the name the engine gives it.
pub struct VariantTypeName {
    pub typ: i64,
    pub name: String,
}

/// The first entry of `types` with that name.
pub open spec fn type_named(types: Seq<VariantTypeName>, name: Seq<char>) -> Option<int>
    decreases types.len(),
{
    if types.len() == 0 {
        None
    } else {
        match type_named(types.drop_last(), name) {
            Some(i) => Some(i),
            None => if types.last().name@ == name {
                Some(types.len() - 1)
            } else {
                None
            },
        }
    }
}

proof fn lemma_type_named(types: Seq<VariantTypeName>, name: Seq<char>)
    ensures
        match type_named(types, name) {
            Some(i) => 0 <= i < types.len() && types[i].name@ == name && forall|j: int|
                0 <= j < i ==> #[trigger] types[j].name@ != name,
            None => forall|j: int| 0 <= j < types.len() ==> #[trigger] types[j].name@ != name,
        },
    decreases types.len(),
{
    if types.len() > 0 {
        let d = types.drop_last();
        lemma_type_named(d, name);
        assert forall|j: int| 0 <= j < d.len() implies #[trigger] types[j] == d[j] by {}
    }
}

proof fn lemma_type_named_prefix(types: Seq<VariantTypeName>, name: Seq<char>, n: int)
    requires
        0 <= n <= types.len(),
        type_named(types.take(n), name) is Some,
    ensures
        type_named(types, name) == type_named(types.take(n), name),
    decreases types.len() - n,
{
    if n < types.len() {
        assert(types.take(n + 1).drop_last() =~= types.take(n));
        lemma_type_named_prefix(types, name, n + 1);
    } else {
        assert(types.take(n) =~= types);
    }
}

/// Looks up a variant type by the name the engine gives it.
pub fn parse_variant_type(name: &str, types: &Vec<VariantTypeName>) -> (r: Result<i64, String>)
    ensures
        match type_named(types@, name@) {
            Some(i) => r is Ok && r->Ok_0 == types@[i].typ,
            None => r is Err && r->Err_0@ == "unknown variant type: "@ + name@,
        },
{
    let wanted = chars_of(name);
    for k in 0..types.len()
        invariant
            wanted@ == name@,
            type_named(types@.take(k as int), name@) is None,
    {
        let n = chars_of(types[k].name.as_str());
        proof {
            assert(types@.take(k + 1).drop_last() =~= types@.take(k as int));
        }
        if crate::text::chars_equal(&n, &wanted) {
            proof {
                lemma_type_named_prefix(types@, name@, k + 1);
            }
            return Ok(types[k].typ);
        }
    }
    assert(types@.take(types.len() as int) =~= types@);
    let mut out = chars_of("unknown variant type: ");
    crate::text::push_chars(&mut out, name);
    Err(string_of(&out))
}

/// A type written by name: a variant type the engine knows, or else a class.
pub open spec fn type_pair_spec(types: Seq<VariantTypeName>, name: Seq<char>) -> (i64, Seq<char>, Seq<char>) {
    match type_named(types, name) {
        Some(i) => (types[i].typ, name, seq![]),
        None => (VARIANT_TYPE_OBJECT, "Object"@, name),
    }
}

/// The type written `name`: the variant type of that name, or a class of that
/// name (an object) when no variant type has it.
pub fn variant_type_pair(name: &str, types: &Vec<VariantTypeName>) -> (r: VariantTypePair)
    ensures
        (r.typ, r.variant_name@, r.class_name@) == type_pair_spec(types@, name@),
{
    match parse_variant_type(name, types) {
        Ok(typ) => VariantTypePair { typ, variant_name: String::from_str(name), class_name: String::new() },
        Err(_) => VariantTypePair {
            typ: VARIANT_TYPE_OBJECT,
            variant_name: String::from_str("Object"),
            class_name: String::from_str(name),
        },
    }
}

/// Only the type named `Object` has the object ordinal, as in the engine's
/// table of variant types.
pub open spec fn object_named_object(types: Seq<VariantTypeName>) -> bool {
    forall|i: int| 0 <= i < types.len() && #[trigger] types[i].typ == VARIANT_TYPE_OBJECT ==> types[i].name@ == "Object"@
}

/// Whether only the type named `Object` has the object ordinal in `types`: the
/// table property under which a type written by name is shown by that name again.
pub fn object_only_named_object(types: &Vec<VariantTypeName>) -> (r: bool)
    ensures
        r == object_named_object(types@),
{
    let object = chars_of("Object");
    for k in 0..types.len()
        invariant
            object@ == "Object"@,
            forall|j: int|
                0 <= j < k && #[trigger] types@[j].typ == VARIANT_TYPE_OBJECT ==> types@[j].name@ == "Object"@,
    {
        if types[k].typ == VARIANT_TYPE_OBJECT {
            let n = chars_of(types[k].name.as_str());
            if !crate::text::chars_equal(&n, &object) {
                return false;
            }
        }
    }
    true
}

/// A type written by name is shown by that name again (its variant type's
/// name, or its class name for objects), for every name but `Object`, over a
/// table in which only `Object` has the object ordinal (as the engine's does;
/// `object_only_named_object` tells whether a table is such).
pub proof fn lemma_type_pair_round_trip(types: Seq<VariantTypeName>, name: Seq<char>)
    requires
        object_named_object(types),
        name != "Object"@,
    ensures
        ({
            let p = type_pair_spec(types, name);
            (if p.0 == VARIANT_TYPE_OBJECT {
                p.2
            } else {
                p.1
            }) == name
        }),
{
    lemma_type_named(types, name);
    match type_named(types, name) {
        Some(i) => {
            if types[i].typ == VARIANT_TYPE_OBJECT {
                assert(types[i].name@ == "Object"@);
            }
        },
        None => {},
    }
}

/// An argument of a global function: its name and the name of its type.
pub struct Argument {
    pub name: String,
    pub ty: String,
}

/// A global function of the scripting language, as the engine lists it.
pub struct UtilityFunction {
    pub name: String,
    pub return_type: Option<String>,
    pub is_vararg: bool,
    pub arguments: Vec<Argument>,
    pub description: String,
}

/// The suggestion for a global function: its name, the first line of its
/// description as help, its argument types, and its return type (nothing when
/// none is given).
pub open spec fn utility_slot_ok(
    slot: AutocompleteSlot,
    func: UtilityFunction,
    indentation: usize,
    types: Seq<VariantTypeName>,
) -> bool {
    &&& slot.name@ == func.name@
    &&& slot.indentation == indentation
    &&& slot.help is Some && slot.help->0@ == crate::expr::split_at_char(func.description@, '\n')[0]
    &&& slot.typ matches AutocompleteType::UtilityFunc(args, ret) && args@.len() == func.arguments@.len() && (
    forall|k: int|
        0 <= k < args@.len() ==> (#[trigger] args@[k]).0@ == func.arguments@[k].name@ && (
        args@[k].1.typ,
        args@[k].1.variant_name@,
        args@[k].1.class_name@,
    ) == type_pair_spec(types, func.arguments@[k].ty@)) && match func.return_type {
        Some(t) => (ret.typ, ret.variant_name@, ret.class_name@) == type_pair_spec(types, t@),
        None => ret.typ == VARIANT_TYPE_NIL && ret.variant_name@ == "Nil"@ && ret.class_name@ == Seq::<
            char,
        >::empty(),
    }
}

/// The suggestion for a global function, for a completion at `indentation`.
pub fn utility_function_slot(func: &UtilityFunction, indentation: usize, types: &Vec<VariantTypeName>) -> (r:
    AutocompleteSlot)
    ensures
        utility_slot_ok(r, *func, indentation, types@),
{
    let lines = crate::expr::split_chars(&chars_of(func.description.as_str()), '\n');
    proof {
        crate::expr::lemma_split_nonempty(func.description@, '\n');
    }
    let help = string_of(&lines[0]);
    let mut args: Vec<(String, VariantTypePair)> = Vec::new();
    for k in 0..func.arguments.len()
        invariant
            args@.len() == k,
            forall|j: int|
                0 <= j < k ==> (#[trigger] args@[j]).0@ == func.arguments@[j].name@ && (
                args@[j].1.typ,
                args@[j].1.variant_name@,
                args@[j].1.class_name@,
            ) == type_pair_spec(types@, func.arguments@[j].ty@),
    {
        let t = variant_type_pair(func.arguments[k].ty.as_str(), types);
        args.push((func.arguments[k].name.clone(), t));
    }
    let ret = match &func.return_type {
        Some(t) => variant_type_pair(t.as_str(), types),
        None => VariantTypePair {
            typ: VARIANT_TYPE_NIL,
            variant_name: String::from_str("Nil"),
            class_name: String::new(),
        },
    };
    AutocompleteSlot {
        name: func.name.clone(),
        indentation,
        help: Some(help),
        typ: AutocompleteType::UtilityFunc(args, ret),
    }
}

/// The suggestions for the global functions, in the order they are listed.
pub fn utility_function_slots(funcs: &Vec<UtilityFunction>, indentation: usize, types: &Vec<VariantTypeName>) -> (r:
    Vec<AutocompleteSlot>)
    ensures
        r@.len() == funcs@.len(),
        forall|k: int| 0 <= k < r@.len() ==> utility_slot_ok(#[trigger] r@[k], funcs@[k], indentation, types@),
{
    let mut out: Vec<AutocompleteSlot> = Vec::new();
    for k in 0..funcs.len()
        invariant
            out@.len() == k,
            forall|j: int| 0 <= j < k ==> utility_slot_ok(#[trigger] out@[j], funcs@[j], indentation, types@),
    {
        out.push(utility_function_slot(&funcs[k], indentation, types));
    }
    out
}

} // verus!
