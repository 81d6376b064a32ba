//! Key bindings: a console command bound to a key, run when the key is
//! pressed. Keys are the engine's key codes, in the order they were first bound.

use vstd::prelude::*;
use indexmap::IndexMap;
use crate::numbers::{decimal, u64_to_string};
use crate::registry::{
    debug_str, debug_text, distinct_keys, join_with_spaces, join_words, key_index, lookup, with_entry,
    without_entry,
};
use crate::text::{chars_of, push_chars, string_of, views};

verus! {

/// A bound key: the name the engine prints for the key, and the command it runs.
pub struct KeyBinding {
    pub key_name: String,
    pub command: String,
}

pub struct KeyBindingView {
    pub key_name: Seq<char>,
    pub command: Seq<char>,
}

impl View for KeyBinding {
    type V = KeyBindingView;

    open spec fn view(&self) -> KeyBindingView {
        KeyBindingView { key_name: self.key_name@, command: self.command@ }
    }
}

/// The entries of a map of key bindings, in order, with their key codes.
pub uninterp spec fn binding_entries(m: IndexMap<i64, KeyBinding>) -> Seq<(i64, KeyBindingView)>;

/// Calls `IndexMap::new`: an empty map.
#[verifier::external_body]
fn bindings_new() -> (r: IndexMap<i64, KeyBinding>)
    ensures
        binding_entries(r) == Seq::<(i64, KeyBindingView)>::empty(),
{
    IndexMap::new()
}

/// Calls `IndexMap::len`: the number of entries.
#[verifier::external_body]
fn bindings_len(m: &IndexMap<i64, KeyBinding>) -> (r: usize)
    ensures
        r == binding_entries(*m).len(),
{
    m.len()
}

/// Calls `IndexMap::insert`: an existing key keeps its place and gets the new
/// value (the old one is returned); a new key is appended. Keys stay distinct.
#[verifier::external_body]
fn bindings_insert(m: &mut IndexMap<i64, KeyBinding>, key: i64, value: KeyBinding) -> (r: Option<KeyBinding>)
    ensures
        distinct_keys(binding_entries(*final(m))),
        match key_index(binding_entries(*old(m)), key) {
            Some(i) => binding_entries(*final(m)) == binding_entries(*old(m)).update(i, (key, value@)) && (r matches Some(v) && v@ == binding_entries(*old(m))[i].1),
            None => binding_entries(*final(m)) == binding_entries(*old(m)).push((key, value@)) && r is None,
        },
{
    m.insert(key, value)
}

/// Calls `IndexMap::shift_remove`: the entry with the key is removed and the
/// later entries move up, keeping their order; its value is returned.
#[verifier::external_body]
fn bindings_shift_remove(m: &mut IndexMap<i64, KeyBinding>, key: i64) -> (r: Option<KeyBinding>)
    ensures
        distinct_keys(binding_entries(*final(m))),
        match key_index(binding_entries(*old(m)), key) {
            Some(i) => binding_entries(*final(m)) == binding_entries(*old(m)).remove(i) && (r matches Some(v) && v@ == binding_entries(*old(m))[i].1),
            None => binding_entries(*final(m)) == binding_entries(*old(m)) && r is None,
        },
{
    m.shift_remove(&key)
}

/// Calls `IndexMap::get`: the value stored for the key.
#[verifier::external_body]
fn bindings_get(m: &IndexMap<i64, KeyBinding>, key: i64) -> (r: Option<&KeyBinding>)
    ensures
        match key_index(binding_entries(*m), key) {
            Some(i) => r matches Some(v) && v@ == binding_entries(*m)[i].1,
            None => r is None,
        },
{
    m.get(&key)
}

/// Calls `IndexMap::get_index`: the entry at a position.
#[verifier::external_body]
fn bindings_get_index(m: &IndexMap<i64, KeyBinding>, i: usize) -> (r: Option<(&i64, &KeyBinding)>)
    ensures
        i < binding_entries(*m).len() ==> (r is Some && *r.unwrap().0 == binding_entries(*m)[i as int].0 && r.unwrap().1@ == binding_entries(*m)[i as int].1),
        i >= binding_entries(*m).len() ==> r is None,
{
    m.get_index(i)
}

/// Calls `IndexMap::clear`: no entries remain.
#[verifier::external_body]
fn bindings_clear(m: &mut IndexMap<i64, KeyBinding>)
    ensures
        binding_entries(*final(m)) == Seq::<(i64, KeyBindingView)>::empty(),
{
    m.clear()
}

/// What `:key bind` answers.
pub open spec fn bound_message(key_name: Seq<char>, command: Seq<char>) -> Seq<char> {
    "Bound key "@ + key_name + " to "@ + command
}

/// What `:key unbind` answers for a key that was bound to `command`.
pub open spec fn unbound_message(key_name: Seq<char>, command: Seq<char>) -> Seq<char> {
    "Unbound key "@ + key_name + " with command "@ + debug_text(command)
}

/// The error of `:key unbind` for a key that was not bound.
pub open spec fn not_bound_message(key_name: Seq<char>) -> Seq<char> {
    "Key "@ + key_name + " was not bound"@
}

/// The lines of the listing, one `    name: "command",` line per binding.
pub open spec fn binding_lines(s: Seq<(i64, KeyBindingView)>) -> Seq<char>
    decreases s.len(),
{
    if s.len() == 0 {
        seq![]
    } else {
        binding_lines(s.drop_last()) + "    "@ + s.last().1.key_name + ": "@ + debug_text(s.last().1.command)
            + ",\n"@
    }
}

/// What `:key list` answers: the bindings as the map's pretty debug text,
/// `{}` when there are none.
pub open spec fn bindings_listing(s: Seq<(i64, KeyBindingView)>) -> Seq<char> {
    if s.len() == 0 {
        "{}"@
    } else {
        "{\n"@ + binding_lines(s) + "}"@
    }
}

/// The key bindings, in the order the keys were first bound.
pub struct KeyBindings {
    map: IndexMap<i64, KeyBinding>,
}

impl KeyBindings {
    /// The bindings, each with its key code.
    pub closed spec fn entries(&self) -> Seq<(i64, KeyBindingView)> {
        binding_entries(self.map)
    }

    /// No key is listed twice.
    pub open spec fn wf(&self) -> bool {
        distinct_keys(self.entries())
    }

    /// No bindings.
    pub fn new() -> (r: Self)
        ensures
            r.wf(),
            r.entries().len() == 0,
    {
        KeyBindings { map: bindings_new() }
    }

    /// `:key bind`: binds the key (its code, and the name the engine prints for
    /// it) to the command words joined with spaces, replacing in place what it
    /// was bound to.
    pub fn bind(&mut self, key: i64, key_name: &str, command: &Vec<String>) -> (r: String)
        requires
            old(self).wf(),
        ensures
            final(self).wf(),
            final(self).entries() == with_entry(
                old(self).entries(),
                key,
                KeyBindingView { key_name: key_name@, command: join_words(views(command@)) },
            ),
            r@ == bound_message(key_name@, join_words(views(command@))),
    {
        let command = join_with_spaces(command);
        let mut out = chars_of("Bound key ");
        push_chars(&mut out, key_name);
        push_chars(&mut out, " to ");
        push_chars(&mut out, command.as_str());
        let binding = KeyBinding { key_name: string_of(&chars_of(key_name)), command };
        let _ = bindings_insert(&mut self.map, key, binding);
        string_of(&out)
    }

    /// `:key unbind`: removes the binding of the key; an error when it was not bound.
    pub fn unbind(&mut self, key: i64, key_name: &str) -> (r: Result<String, String>)
        requires
            old(self).wf(),
        ensures
            final(self).wf(),
            final(self).entries() == without_entry(old(self).entries(), key),
            match lookup(old(self).entries(), key) {
                Some(b) => r is Ok && r->Ok_0@ == unbound_message(key_name@, b.command),
                None => r is Err && r->Err_0@ == not_bound_message(key_name@),
            },
    {
        match bindings_shift_remove(&mut self.map, key) {
            Some(previous) => {
                let mut out = chars_of("Unbound key ");
                push_chars(&mut out, key_name);
                push_chars(&mut out, " with command ");
                push_chars(&mut out, debug_str(previous.command.as_str()).as_str());
                Ok(string_of(&out))
            },
            None => {
                let mut out = chars_of("Key ");
                push_chars(&mut out, key_name);
                push_chars(&mut out, " was not bound");
                Err(string_of(&out))
            },
        }
    }

    /// `:key list`: the bindings, as the map's pretty debug text.
    pub fn list(&self) -> (r: String)
        ensures
            r@ == bindings_listing(self.entries()),
    {
        let n = bindings_len(&self.map);
        if n == 0 {
            return string_of(&chars_of("{}"));
        }
        let mut lines: Vec<char> = Vec::new();
        for i in 0..n
            invariant
                n == self.entries().len(),
                lines@ == binding_lines(self.entries().take(i as int)),
        {
            match bindings_get_index(&self.map, i) {
                Some((_, b)) => {
                    let ghost s = self.entries().take(i + 1);
                    assert(s.drop_last() =~= self.entries().take(i as int));
                    assert(s.last() == self.entries()[i as int]);
                    push_chars(&mut lines, "    ");
                    push_chars(&mut lines, b.key_name.as_str());
                    push_chars(&mut lines, ": ");
                    push_chars(&mut lines, debug_str(b.command.as_str()).as_str());
                    push_chars(&mut lines, ",\n");
                    assert(lines@ =~= binding_lines(s));
                },
                None => {},
            }
        }
        assert(self.entries().take(n as int) =~= self.entries());
        let mut out = chars_of("{\n");
        let text = string_of(&lines);
        push_chars(&mut out, text.as_str());
        push_chars(&mut out, "}");
        string_of(&out)
    }

    /// `:key clear`: removes every binding, and answers how many there were.
    pub fn clear(&mut self) -> (r: String)
        ensures
            final(self).wf(),
            final(self).entries().len() == 0,
            r@ == "Removed "@ + decimal(old(self).entries().len() as int) + " bindings."@,
    {
        let n = bindings_len(&self.map);
        bindings_clear(&mut self.map);
        let mut out = chars_of("Removed ");
        push_chars(&mut out, u64_to_string(n as u64).as_str());
        push_chars(&mut out, " bindings.");
        string_of(&out)
    }

    /// The command bound to the pressed key, if any.
    pub fn command_for(&self, key: i64) -> (r: Option<&String>)
        ensures
            match lookup(self.entries(), key) {
                Some(b) => r matches Some(c) && c@ == b.command,
                None => r is None,
            },
    {
        match bindings_get(&self.map, key) {
            Some(b) => Some(&b.command),
            None => None,
        }
    }

    /// The number of bindings.
    pub fn len(&self) -> (r: usize)
        ensures
            r == self.entries().len(),
    {
        bindings_len(&self.map)
    }
}

} // verus!
