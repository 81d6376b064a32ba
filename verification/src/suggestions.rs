//! The suggestion list under the input line and the node picker: which entry is
//! selected, what choosing it writes into the line, and how entries read.

use vstd::prelude::*;
use crate::autocomplete::{AutocompleteSlot, AutocompleteType, VariantTypePair, VARIANT_TYPE_NIL, VARIANT_TYPE_OBJECT};
use crate::history::SearchSlot;
use crate::numbers::{decimal, humanize_duration, humanize_parts, u64_to_string};
use crate::text::{
    byte_len, chars_of, fit_to_width, fit_to_width_spec, push_chars, second_to_last_word_end,
    second_to_last_word_end_spec, split_console_whitespace, string_of, views, words,
};

verus! {

/// `x` wrapped into `0..n` (Euclidean remainder).
fn wrap_index(x: i128, n: usize) -> (r: usize)
    requires
        n > 0,
        x > i128::MIN,
    ensures
        r == (x as int) % (n as int),
        r < n,
{
    let m: u128 = n as u128;
    if x >= 0 {
        let r = (x as u128) % m;
        r as usize
    } else {
        let y: u128 = (-x) as u128;
        let q = y % m;
        let k = y / m;
        proof {
            vstd::arithmetic::div_mod::lemma_fundamental_div_mod(y as int, m as int);
            assert(y as int == (m as int) * (k as int) + (q as int));
        }
        if q == 0 {
            proof {
                assert((x as int) == (-(k as int)) * (m as int) + 0) by (nonlinear_arith)
                    requires
                        (y as int) == (m as int) * (k as int),
                        x == -y,
                ;
                vstd::arithmetic::div_mod::lemma_fundamental_div_mod_converse(x as int, m as int, -(k as int), 0);
            }
            0
        } else {
            proof {
                assert((x as int) == (-(k as int) - 1) * (m as int) + (m - q)) by (nonlinear_arith)
                    requires
                        (y as int) == (m as int) * (k as int) + (q as int),
                        x == -y,
                ;
                vstd::arithmetic::div_mod::lemma_fundamental_div_mod_converse(
                    x as int,
                    m as int,
                    -(k as int) - 1,
                    (m - q) as int,
                );
            }
            (m - q) as usize
        }
    }
}

/// The slot selected after moving by `direction` among `len` slots, wrapping
/// around: the first slot when none was selected.
pub open spec fn shifted_slot(len: nat, slot_index: Option<usize>, direction: i64) -> Option<usize> {
    match slot_index {
        Some(i) => Some(((i + direction) % (if len > 0 { len as int } else { 1int })) as usize),
        None => Some(0usize),
    }
}

/// Moves the selection among `len` slots by `direction`, wrapping around.
pub fn maybe_shift_slot(len: usize, slot_index: Option<usize>, direction: i64) -> (r: Option<usize>)
    ensures
        r == shifted_slot(len as nat, slot_index, direction),
{
    match slot_index {
        Some(i) => {
            let n: usize = if len > 0 {
                len
            } else {
                1
            };
            Some(wrap_index(i as i128 + direction as i128, n))
        },
        None => Some(0),
    }
}

/// Moving the selection one way and then back by the same distance returns to
/// the slot that was selected.
pub proof fn lemma_shift_back(len: nat, i: usize, direction: i64)
    requires
        i < len <= usize::MAX,
        direction > i64::MIN,
    ensures
        shifted_slot(len, shifted_slot(len, Some(i), direction), (-direction) as i64) == Some(i),
{
    let n = len as int;
    let j = (i + direction) % n;
    vstd::arithmetic::div_mod::lemma_fundamental_div_mod(i + direction, n);
    let q = (i + direction) / n;
    assert(j - direction == (-q) * n + i) by (nonlinear_arith)
        requires
            i + direction == n * q + j,
    ;
    vstd::arithmetic::div_mod::lemma_fundamental_div_mod_converse(j - direction, n, -q, i as int);
    assert(0 <= j < n) by {
        vstd::arithmetic::div_mod::lemma_mod_bound(i + direction, n);
    }
    let ju = j as usize;
    assert(ju as int == j);
    assert(shifted_slot(len, Some(i), direction) == Some(ju));
    assert(((-direction) as i64) as int == -direction);
    assert((ju + ((-direction) as i64)) % n == i);
}

/// The suggestions shown under the input line.
pub enum SuggestionSlots {
    /// Nothing is shown.
    Hidden,
    /// Matching history entries, and the selected one.
    Search(Vec<SearchSlot>, Option<usize>),
    /// Completions, the selected one, and the line they complete.
    Autocomplete(Vec<AutocompleteSlot>, Option<usize>, String),
}

/// A completion of a function call gets empty parentheses.
pub open spec fn is_callable(typ: AutocompleteType) -> bool {
    typ is Method || typ is UtilityFunc
}

/// The line after choosing a completion: what was typed up to the
/// completion's indentation (in characters), then the completion, then `()`
/// for a function.
pub open spec fn completed_line(partial: Seq<char>, slot: AutocompleteSlot) -> Seq<char> {
    partial.take(if slot.indentation < partial.len() { slot.indentation as int } else { partial.len() as int })
        + slot.name@ + (if is_callable(slot.typ) {
        "()"@
    } else {
        seq![]
    })
}

/// Choosing a completion keeps what was typed before its indentation and puts
/// its name after it: a method or a global utility function gets `()` after
/// its name, any other completion nothing more.
pub proof fn lemma_completed_line_parts(partial: Seq<char>, slot: AutocompleteSlot)
    ensures
        ({
            let keep = if slot.indentation < partial.len() {
                slot.indentation as int
            } else {
                partial.len() as int
            };
            let line = completed_line(partial, slot);
            &&& (slot.typ is Method || slot.typ is UtilityFunc) ==> line == partial.take(keep) + slot.name@ + seq![
                '(',
                ')',
            ]
            &&& !(slot.typ is Method || slot.typ is UtilityFunc) ==> line == partial.take(keep) + slot.name@
        }),
{
    reveal_strlit("()");
    let keep = if slot.indentation < partial.len() {
        slot.indentation as int
    } else {
        partial.len() as int
    };
    if slot.typ is Method || slot.typ is UtilityFunc {
        assert(completed_line(partial, slot) =~= partial.take(keep) + slot.name@ + seq!['(', ')']);
    } else {
        assert(completed_line(partial, slot) =~= partial.take(keep) + slot.name@);
    }
}

/// The line after choosing `slot` as completion of `partial`.
pub fn apply_completion(partial: &str, slot: &AutocompleteSlot) -> (r: String)
    ensures
        r@ == completed_line(partial@, *slot),
{
    let v = chars_of(partial);
    let keep = if slot.indentation < v.len() {
        slot.indentation
    } else {
        v.len()
    };
    let mut out: Vec<char> = Vec::new();
    for k in 0..keep
        invariant
            keep <= v.len(),
            out@ == v@.take(k as int),
    {
        out.push(v[k]);
        assert(v@.take(k + 1) =~= v@.take(k as int).push(v@[k as int]));
    }
    push_chars(&mut out, slot.name.as_str());
    let callable = match slot.typ {
        AutocompleteType::Method(_, _) | AutocompleteType::UtilityFunc(_, _) => true,
        _ => false,
    };
    if callable {
        push_chars(&mut out, "()");
    }
    assert(out@ =~= completed_line(partial@, *slot));
    string_of(&out)
}

/// The selected slot's index, or of the first slot when none is selected.
pub open spec fn target_index(i: Option<usize>) -> int {
    match i {
        Some(k) => k as int,
        None => 0,
    }
}

/// What a suggestion list looks like: how many slots and which is selected.
pub open spec fn slots_shape(s: SuggestionSlots) -> (nat, Option<usize>) {
    match s {
        SuggestionSlots::Hidden => (0, None),
        SuggestionSlots::Search(v, i) => (v@.len(), i),
        SuggestionSlots::Autocomplete(v, i, _) => (v@.len(), i),
    }
}

impl SuggestionSlots {
    /// The line whose entry is scrolled into view: the selected one, or the first.
    pub fn target_line(&self) -> (r: usize)
        ensures
            r == match *self {
                SuggestionSlots::Hidden => 0,
                SuggestionSlots::Search(_, i) => target_index(i),
                SuggestionSlots::Autocomplete(_, i, _) => target_index(i),
            },
    {
        match self {
            SuggestionSlots::Hidden => 0,
            SuggestionSlots::Search(_, i) => match i {
                Some(k) => *k,
                None => 0,
            },
            SuggestionSlots::Autocomplete(_, i, _) => match i {
                Some(k) => *k,
                None => 0,
            },
        }
    }

    /// Moves the selection by `direction` (wrapping around) and answers the
    /// new text of the input line: the selected history entry, or the line
    /// completed by the selected completion; nothing when no slot is there.
    pub fn perform(&mut self, direction: i64) -> (r: Option<String>)
        ensures
            match *old(self) {
                SuggestionSlots::Hidden => *final(self) is Hidden && r is None,
                SuggestionSlots::Search(v, i) => ({
                    let j = shifted_slot(v@.len(), i, direction);
                    &&& *final(self) matches SuggestionSlots::Search(w, k) && w@ == v@ && k == j
                    &&& (0 <= target_index(j) < v@.len()) == (r is Some)
                    &&& r is Some ==> r->0@ == v@[target_index(j)].name@
                }),
                SuggestionSlots::Autocomplete(v, i, line) => ({
                    let j = shifted_slot(v@.len(), i, direction);
                    &&& *final(self) matches SuggestionSlots::Autocomplete(w, k, l) && w@ == v@ && k == j
                        && l@ == line@
                    &&& (0 <= target_index(j) < v@.len()) == (r is Some)
                    &&& r is Some ==> r->0@ == completed_line(line@, v@[target_index(j)])
                }),
            },
    {
        match self {
            SuggestionSlots::Hidden => None,
            SuggestionSlots::Search(slots, index) => {
                let j = maybe_shift_slot(slots.len(), *index, direction);
                *index = j;
                let t = match j {
                    Some(k) => k,
                    None => 0,
                };
                if t < slots.len() {
                    Some(slots[t].name.clone())
                } else {
                    None
                }
            },
            SuggestionSlots::Autocomplete(slots, index, line) => {
                let j = maybe_shift_slot(slots.len(), *index, direction);
                *index = j;
                let t = match j {
                    Some(k) => k,
                    None => 0,
                };
                if t < slots.len() {
                    Some(apply_completion(line.as_str(), &slots[t]))
                } else {
                    None
                }
            },
        }
    }
}

/// Keeps at most `max_slots` slots, the first ones.
pub fn truncate_slots<T>(slots: &mut Vec<T>, max_slots: usize)
    ensures
        final(slots)@ == old(slots)@.take(
            if old(slots)@.len() > max_slots { max_slots as int } else { old(slots)@.len() as int },
        ),
{
    if slots.len() > max_slots {
        slots.truncate(max_slots);
    }
    assert(old(slots)@.len() <= max_slots ==> old(slots)@.take(old(slots)@.len() as int) =~= old(slots)@);
}

/// The name of a type as shown: the class name for objects, else the variant type's name.
pub open spec fn nice_name(t: VariantTypePair) -> Seq<char> {
    if t.typ == VARIANT_TYPE_OBJECT {
        t.class_name@
    } else {
        t.variant_name@
    }
}

/// The argument list: `name: Type` for each (only `Type` when the name is
/// empty), separated by `, `.
pub open spec fn args_text(args: Seq<(String, VariantTypePair)>) -> Seq<char>
    decreases args.len(),
{
    if args.len() == 0 {
        seq![]
    } else {
        let a = args.last();
        args_text(args.drop_last()) + (if args.len() > 1 {
            ", "@
        } else {
            seq![]
        }) + (if a.0@.len() > 0 {
            a.0@ + ": "@
        } else {
            seq![]
        }) + nice_name(a.1)
    }
}

/// The signature shown after a function-like suggestion: its arguments in
/// parentheses, ` -> ` and the return type unless it returns nothing.
pub open spec fn signature_text(args: Seq<(String, VariantTypePair)>, ret: VariantTypePair) -> Seq<char> {
    "("@ + args_text(args) + ")"@ + (if ret.typ != VARIANT_TYPE_NIL {
        " -> "@ + nice_name(ret)
    } else {
        seq![]
    })
}

/// What is shown after a suggestion's name: the signature (with ` (signal)`
/// for signals), the type of a property, or whether a class is global or abstract.
pub open spec fn details_text(typ: AutocompleteType) -> Seq<char> {
    match typ {
        AutocompleteType::Method(args, ret) => signature_text(args@, ret),
        AutocompleteType::UtilityFunc(args, ret) => signature_text(args@, ret),
        AutocompleteType::Signal(args, ret) => signature_text(args@, ret) + " (signal)"@,
        AutocompleteType::Property(t) => " "@ + nice_name(t),
        AutocompleteType::Class { is_global, is_abstract } => (if is_global {
            " (global)"@
        } else {
            seq![]
        }) + (if is_abstract {
            " (abstract)"@
        } else {
            seq![]
        }),
        _ => seq![],
    }
}

fn push_nice_name(out: &mut Vec<char>, t: &VariantTypePair)
    ensures
        final(out)@ == old(out)@ + nice_name(*t),
{
    let n = t.nice_variant_name();
    push_chars(out, n.as_str());
}

fn push_signature(out: &mut Vec<char>, args: &Vec<(String, VariantTypePair)>, ret: &VariantTypePair)
    ensures
        final(out)@ == old(out)@ + signature_text(args@, *ret),
{
    let ghost start = out@;
    push_chars(out, "(");
    let ghost open = out@;
    for i in 0..args.len()
        invariant
            out@ == open + args_text(args@.take(i as int)),
    {
        proof {
            assert(args@.take(i + 1).drop_last() =~= args@.take(i as int));
            assert(args@.take(i + 1).last() == args@[i as int]);
        }
        let ghost before = out@;
        if i > 0 {
            push_chars(out, ", ");
        }
        let name = chars_of(args[i].0.as_str());
        if name.len() > 0 {
            push_chars(out, args[i].0.as_str());
            push_chars(out, ": ");
        }
        push_nice_name(out, &args[i].1);
        assert(out@ =~= open + args_text(args@.take(i + 1)));
    }
    assert(args@.take(args.len() as int) =~= args@);
    push_chars(out, ")");
    if ret.typ != VARIANT_TYPE_NIL {
        push_chars(out, " -> ");
        push_nice_name(out, ret);
    }
    assert(out@ =~= start + signature_text(args@, *ret));
}

/// The details shown after a suggestion's name.
pub fn slot_details(typ: &AutocompleteType) -> (r: String)
    ensures
        r@ == details_text(*typ),
{
    let mut out: Vec<char> = Vec::new();
    match typ {
        AutocompleteType::Method(args, ret) => push_signature(&mut out, args, ret),
        AutocompleteType::UtilityFunc(args, ret) => push_signature(&mut out, args, ret),
        AutocompleteType::Signal(args, ret) => {
            push_signature(&mut out, args, ret);
            push_chars(&mut out, " (signal)");
        },
        AutocompleteType::Property(t) => {
            push_chars(&mut out, " ");
            push_nice_name(&mut out, t);
        },
        AutocompleteType::Class { is_global, is_abstract } => {
            if *is_global {
                push_chars(&mut out, " (global)");
            }
            if *is_abstract {
                push_chars(&mut out, " (abstract)");
            }
        },
        _ => {},
    }
    assert(out@ =~= details_text(*typ));
    string_of(&out)
}

/// The color family a suggestion's name is drawn in.
#[derive(Debug, Clone, Copy, PartialEq, Eq, Structural)]
pub enum SlotColor {
    Method,
    UtilityFunc,
    Property,
    Global,
    Class,
    BuiltInType,
    Signal,
}

/// The color of a suggestion's name: console commands are drawn like methods,
/// global classes apart from the others.
pub fn slot_color(typ: &AutocompleteType) -> (r: SlotColor)
    ensures
        r == match *typ {
            AutocompleteType::Method(_, _) => SlotColor::Method,
            AutocompleteType::UtilityFunc(_, _) => SlotColor::UtilityFunc,
            AutocompleteType::Property(_) => SlotColor::Property,
            AutocompleteType::Class { is_global, is_abstract: _ } => if is_global {
                SlotColor::Global
            } else {
                SlotColor::Class
            },
            AutocompleteType::BuiltInType => SlotColor::BuiltInType,
            AutocompleteType::Signal(_, _) => SlotColor::Signal,
            AutocompleteType::Clap => SlotColor::Method,
        },
{
    match typ {
        AutocompleteType::Method(_, _) => SlotColor::Method,
        AutocompleteType::UtilityFunc(_, _) => SlotColor::UtilityFunc,
        AutocompleteType::Property(_) => SlotColor::Property,
        AutocompleteType::Class { is_global, .. } => if *is_global {
            SlotColor::Global
        } else {
            SlotColor::Class
        },
        AutocompleteType::BuiltInType => SlotColor::BuiltInType,
        AutocompleteType::Signal(_, _) => SlotColor::Signal,
        AutocompleteType::Clap => SlotColor::Method,
    }
}

/// The text of a completion's line: what was typed, fitted to the
/// completion's indentation, the name, the details and the help.
pub open spec fn autocomplete_line(partial: Seq<char>, slot: AutocompleteSlot) -> Seq<char> {
    fit_to_width_spec(partial, slot.indentation as nat) + slot.name@ + details_text(slot.typ) + match slot.help {
        Some(h) => " "@ + h@,
        None => seq![],
    }
}

/// The text shown for a completion of `partial`.
pub fn autocomplete_slot_line(partial: &str, slot: &AutocompleteSlot) -> (r: String)
    ensures
        r@ == autocomplete_line(partial@, *slot),
{
    let mut out: Vec<char> = Vec::new();
    let prefix = fit_to_width(partial, slot.indentation);
    push_chars(&mut out, prefix.as_str());
    push_chars(&mut out, slot.name.as_str());
    let details = slot_details(&slot.typ);
    push_chars(&mut out, details.as_str());
    match &slot.help {
        Some(h) => {
            push_chars(&mut out, " ");
            push_chars(&mut out, h.as_str());
        },
        None => {},
    }
    assert(out@ =~= autocomplete_line(partial@, *slot));
    string_of(&out)
}

/// Whole seconds from `then` to `now` (both in nanoseconds), rounded toward zero.
pub open spec fn elapsed_secs(now: i128, then: i128) -> int {
    let d = now - then;
    if d >= 0 {
        d / 1_000_000_000
    } else {
        -((-d) / 1_000_000_000)
    }
}

/// The text shown for a history entry: its command and how long ago it ran.
pub fn search_slot_line(slot: &SearchSlot, now: i128) -> (r: String)
    requires
        i128::MIN <= now - slot.timestamp <= i128::MAX,
        i64::MIN <= elapsed_secs(now, slot.timestamp) <= i64::MAX,
    ensures
        r@ == slot.name@ + " "@ + decimal(humanize_parts(elapsed_secs(now, slot.timestamp)).0) + humanize_parts(
            elapsed_secs(now, slot.timestamp),
        ).1 + " ago"@,
{
    let d: i128 = now - slot.timestamp;
    let secs: i128 = if d >= 0 {
        d / 1_000_000_000
    } else {
        let m: i128 = -d;
        -(m / 1_000_000_000)
    };
    let mut out: Vec<char> = Vec::new();
    push_chars(&mut out, slot.name.as_str());
    push_chars(&mut out, " ");
    let h = humanize_duration(secs as i64);
    push_chars(&mut out, h.as_str());
    string_of(&out)
}

/// The label of the picker's selection: `[k/n]` and a hint.
pub open spec fn picker_slot_text(selected: nat, count: nat) -> Seq<char> {
    "["@ + decimal(selected + 1int) + "/"@ + decimal(count as int) + "]\n(scroll to change slot)"@
}

fn picker_label(selected: usize, count: usize) -> (r: String)
    requires
        selected < count,
        count <= u64::MAX,
    ensures
        r@ == picker_slot_text(selected as nat, count as nat),
{
    let mut out: Vec<char> = Vec::new();
    push_chars(&mut out, "[");
    let a = u64_to_string((selected + 1) as u64);
    push_chars(&mut out, a.as_str());
    push_chars(&mut out, "/");
    let b = u64_to_string(count as u64);
    push_chars(&mut out, b.as_str());
    push_chars(&mut out, "]\n(scroll to change slot)");
    string_of(&out)
}

/// The node picker: how many nodes are under the cursor, and which of them is selected.
pub struct PickerState {
    count: usize,
    selected: usize,
}

impl PickerState {
    /// The number of nodes under the cursor.
    pub closed spec fn count(self) -> nat {
        self.count as nat
    }

    /// The selected node's position among them.
    pub closed spec fn selected(self) -> nat {
        self.selected as nat
    }

    /// The selection is among the nodes, when there are any.
    pub open spec fn wf(self) -> bool {
        self.count() == 0 || self.selected() < self.count()
    }

    /// Nothing under the cursor yet.
    pub fn new() -> (r: PickerState)
        ensures
            r.wf(),
            r.count() == 0,
            r.selected() == 0,
    {
        PickerState { count: 0, selected: 0 }
    }

    /// The cursor moved over `count` nodes, sorted by depth: the topmost (the
    /// last) is selected. Answers its label, nothing when no node is there.
    pub fn on_hovered(&mut self, count: usize) -> (r: Option<String>)
        requires
            count <= u64::MAX,
        ensures
            final(self).wf(),
            final(self).count() == count,
            final(self).selected() == (if count > 0 { count - 1 } else { 0 }),
            r is Some <==> count > 0,
            r is Some ==> r->0@ == picker_slot_text(final(self).selected(), count as nat),
    {
        self.count = count;
        self.selected = if count > 0 {
            count - 1
        } else {
            0
        };
        if count > 0 {
            Some(picker_label(self.selected, count))
        } else {
            None
        }
    }

    /// The wheel turned by `amount` (up is positive): the selection moves the
    /// other way, wrapping around. Nothing changes when no node is under the
    /// cursor. Answers the new label.
    pub fn on_scroll(&mut self, amount: i64) -> (r: Option<String>)
        requires
            old(self).wf(),
            old(self).count() <= u64::MAX,
        ensures
            final(self).wf(),
            final(self).count() == old(self).count(),
            old(self).count() == 0 ==> final(self).selected() == old(self).selected() && r is None,
            old(self).count() > 0 ==> final(self).selected() == (old(self).selected() - amount) % (old(
                self,
            ).count() as int) && r is Some && r->0@ == picker_slot_text(final(self).selected(), old(self).count()),
    {
        if self.count == 0 {
            return None;
        }
        self.selected = wrap_index(self.selected as i128 - amount as i128, self.count);
        Some(picker_label(self.selected, self.count))
    }
}

/// The texts the picker offers for a node, by menu id: a `get_node` call, the
/// bare path, an `instance_from_id` call, and the `:node from-id` command.
pub open spec fn nodepath_format(path: Seq<char>, instance_id: Seq<char>, id: int) -> Option<Seq<char>> {
    if id == 0 {
        Some("get_node(\""@ + path + "\")"@)
    } else if id == 1 {
        Some(path)
    } else if id == 2 {
        Some("instance_from_id("@ + instance_id + ")"@)
    } else if id == 3 {
        Some(":node from-id "@ + instance_id)
    } else {
        None
    }
}

/// The text to insert for the format picked from the menu; nothing for an
/// unknown id.
pub fn pick_nodepath_format(path: &str, instance_id: &str, id: i64) -> (r: Option<String>)
    ensures
        match nodepath_format(path@, instance_id@, id as int) {
            Some(t) => r is Some && r->0@ == t,
            None => r is None,
        },
{
    let mut out: Vec<char> = Vec::new();
    if id == 0 {
        push_chars(&mut out, "get_node(\"");
        push_chars(&mut out, path);
        push_chars(&mut out, "\")");
    } else if id == 1 {
        push_chars(&mut out, path);
    } else if id == 2 {
        push_chars(&mut out, "instance_from_id(");
        push_chars(&mut out, instance_id);
        push_chars(&mut out, ")");
    } else if id == 3 {
        push_chars(&mut out, ":node from-id ");
        push_chars(&mut out, instance_id);
    } else {
        return None;
    }
    Some(string_of(&out))
}

/// What kind of node the picker picks.
#[derive(Debug, Clone, Copy, PartialEq, Eq, Structural)]
pub enum PickType {
    Control,
    Node2D,
    Node3D,
}

/// The kind of node for an entry of the picker's menu; nothing for an unknown id.
pub fn pick_type_of(id: i64) -> (r: Option<PickType>)
    ensures
        r == (if id == 0 {
            Some(PickType::Control)
        } else if id == 1 {
            Some(PickType::Node2D)
        } else if id == 2 {
            Some(PickType::Node3D)
        } else {
            None
        }),
{
    if id == 0 {
        Some(PickType::Control)
    } else if id == 1 {
        Some(PickType::Node2D)
    } else if id == 2 {
        Some(PickType::Node3D)
    } else {
        None
    }
}

/// How many suggestions are shown at most.
pub const MAX_SLOTS: usize = 150;

/// The first `max` items (all of them when there are fewer).
pub open spec fn first_items<T>(s: Seq<T>, max: nat) -> Seq<T> {
    s.take(if s.len() > max { max as int } else { s.len() as int })
}

impl SuggestionSlots {
    /// The selection that new suggestions of the kind of `self` keep: the
    /// previous one while the line is unchanged, none otherwise.
    pub open spec fn kept_search_index(self, got_new_line: bool) -> Option<usize> {
        match self {
            SuggestionSlots::Search(_, i) => if got_new_line {
                None
            } else {
                i
            },
            _ => None,
        }
    }

    /// As `kept_search_index`, for completions.
    pub open spec fn kept_completion_index(self, got_new_line: bool) -> Option<usize> {
        match self {
            SuggestionSlots::Autocomplete(_, i, _) => if got_new_line {
                None
            } else {
                i
            },
            _ => None,
        }
    }

    /// The suggestions after the history was searched anew: the first
    /// `MAX_SLOTS` matches, keeping the selection unless the line changed or
    /// completions were shown before.
    pub fn with_search(&self, slots: Vec<SearchSlot>, got_new_line: bool) -> (r: SuggestionSlots)
        ensures
            r matches SuggestionSlots::Search(v, i) && v@ == first_items(slots@, MAX_SLOTS as nat) && i
                == self.kept_search_index(got_new_line),
    {
        let mut slots = slots;
        truncate_slots(&mut slots, MAX_SLOTS);
        let index = match self {
            SuggestionSlots::Search(_, i) => if got_new_line {
                None
            } else {
                *i
            },
            _ => None,
        };
        SuggestionSlots::Search(slots, index)
    }

    /// The suggestions after completions were computed anew for the line
    /// `line`: the first `MAX_SLOTS`, keeping the selection unless the line
    /// changed or history matches were shown before.
    pub fn with_completions(&self, slots: Vec<AutocompleteSlot>, got_new_line: bool, line: String) -> (r:
        SuggestionSlots)
        ensures
            r matches SuggestionSlots::Autocomplete(v, i, l) && v@ == first_items(slots@, MAX_SLOTS as nat) && i
                == self.kept_completion_index(got_new_line) && l@ == line@,
    {
        let mut slots = slots;
        truncate_slots(&mut slots, MAX_SLOTS);
        let index = match self {
            SuggestionSlots::Autocomplete(_, i, _) => if got_new_line {
                None
            } else {
                *i
            },
            _ => None,
        };
        SuggestionSlots::Autocomplete(slots, index, line)
    }
}

/// The words handed to the command-line completer: the words of the line,
/// and an empty one when the line is empty or ends with a space (a new word
/// is being started).
pub open spec fn completion_words(line: Seq<char>) -> Seq<Seq<char>> {
    if line.len() == 0 || line.last() == ' ' {
        words(line).push(seq![])
    } else {
        words(line)
    }
}

/// The words to complete and the position of the word being completed (the last).
pub fn clap_completion_args(line: &str) -> (r: (Vec<String>, usize))
    ensures
        views(r.0@) == completion_words(line@),
        r.1 == (if r.0@.len() > 0 { r.0@.len() - 1 } else { 0 }),
{
    let mut args = split_console_whitespace(line);
    let v = chars_of(line);
    if v.len() == 0 || v[v.len() - 1] == ' ' {
        let ghost before = args@;
        args.push(String::new());
        assert(views(args@) =~= views(before).push(seq![]));
    }
    let n = args.len();
    let idx = if n > 0 {
        n - 1
    } else {
        0
    };
    (args, idx)
}

/// A completion that the command-line completer offered: its text and help.
pub struct ClapCompletion {
    pub value: String,
    pub help: Option<String>,
}

/// The suggestions for completions of a console command: each replaces the
/// line from the end of its second-to-last word on.
pub fn clap_slots(line: &str, completions: &Vec<ClapCompletion>) -> (r: Vec<AutocompleteSlot>)
    requires
        byte_len(line@) + 2 <= usize::MAX,
    ensures
        r@.len() == completions@.len(),
        forall|k: int|
            0 <= k < r@.len() ==> {
                &&& (#[trigger] r@[k]).name@ == completions@[k].value@
                &&& r@[k].indentation == second_to_last_word_end_spec(line@)
                &&& r@[k].typ is Clap
                &&& match completions@[k].help {
                    Some(h) => r@[k].help is Some && r@[k].help->0@ == h@,
                    None => r@[k].help is None,
                }
            },
{
    let indentation = second_to_last_word_end(line);
    let mut out: Vec<AutocompleteSlot> = Vec::new();
    for k in 0..completions.len()
        invariant
            indentation == second_to_last_word_end_spec(line@),
            out@.len() == k,
            forall|j: int|
                0 <= j < k ==> {
                    &&& (#[trigger] out@[j]).name@ == completions@[j].value@
                    &&& out@[j].indentation == second_to_last_word_end_spec(line@)
                    &&& out@[j].typ is Clap
                    &&& match completions@[j].help {
                        Some(h) => out@[j].help is Some && out@[j].help->0@ == h@,
                        None => out@[j].help is None,
                    }
                },
    {
        let help = match &completions[k].help {
            Some(h) => Some(h.clone()),
            None => None,
        };
        out.push(
            AutocompleteSlot {
                name: completions[k].value.clone(),
                indentation,
                help,
                typ: AutocompleteType::Clap,
            },
        );
    }
    out
}

} // verus!
