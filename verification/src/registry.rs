//! The registries the console keeps in insertion order: custom commands and
//! watches, each keyed by name.

use vstd::prelude::*;
use indexmap::IndexMap;
use crate::names::{CommandName, CommandNameError};
use crate::text::{chars_of, concat, has_prefix, starts_with, string_of};

verus! {

/// The map type of the `indexmap` crate: entries in insertion order.
#[verifier::external_type_specification]
#[verifier::external_body]
#[verifier::reject_recursive_types(K)]
#[verifier::reject_recursive_types(V)]
#[verifier::reject_recursive_types(S)]
pub struct ExIndexMap<K, V, S>(IndexMap<K, V, S>);

/// No key occurs twice.
pub open spec fn distinct_keys<K, V>(s: Seq<(K, V)>) -> bool {
    forall|i: int, j: int| 0 <= i < j < s.len() ==> s[i].0 != s[j].0
}

/// The position of `k` among the keys of `s`, if it occurs.
pub open spec fn key_index<K, V>(s: Seq<(K, V)>, k: K) -> Option<int> {
    if exists|i: int| 0 <= i < s.len() && s[i].0 == k {
        Some(choose|i: int| 0 <= i < s.len() && s[i].0 == k)
    } else {
        None
    }
}

/// The keys of `s`, in order.
pub open spec fn keys_of<K, V>(s: Seq<(K, V)>) -> Seq<K> {
    s.map_values(|p: (K, V)| p.0)
}

/// Rust's debug text of a string literal (quoted and escaped), as `{:?}` prints it.
pub uninterp spec fn debug_text(s: Seq<char>) -> Seq<char>;

/// Formats `s` with `{:?}`; the text depends on the characters of `s` alone.
#[verifier::external_body]
pub(crate) fn debug_str(s: &str) -> (r: String)
    ensures
        r@ == debug_text(s@),
{
    format!("{:?}", s)
}

/// Joins lines with `\n` between them.
pub open spec fn join_lines(lines: Seq<Seq<char>>) -> Seq<char>
    decreases lines.len(),
{
    if lines.len() == 0 {
        seq![]
    } else if lines.len() == 1 {
        lines[0]
    } else {
        join_lines(lines.drop_last()) + seq!['\n'] + lines.last()
    }
}

/// What a custom command runs.
#[derive(Debug, PartialEq, Eq)]
pub enum CustomCommandExpression {
    /// An expression, as typed.
    String(String),
    /// A callable registered by the game, by the number it was registered under.
    Callable(u64),
}

pub enum ExpressionView {
    String(Seq<char>),
    Callable(u64),
}

impl View for CustomCommandExpression {
    type V = ExpressionView;

    open spec fn view(&self) -> ExpressionView {
        match self {
            CustomCommandExpression::String(s) => ExpressionView::String(s@),
            CustomCommandExpression::Callable(h) => ExpressionView::Callable(*h),
        }
    }
}

/// How an expression is listed: `String("...")`, or `Callable(#n)`.
pub open spec fn expression_text(e: ExpressionView) -> Seq<char> {
    match e {
        ExpressionView::String(s) => "String("@ + debug_text(s) + ")"@,
        ExpressionView::Callable(h) => "Callable(#"@ + crate::numbers::decimal(h as int) + ")"@,
    }
}

pub fn describe_expression(e: &CustomCommandExpression) -> (r: String)
    ensures
        r@ == expression_text(e@),
{
    match e {
        CustomCommandExpression::String(s) => {
            let d = debug_str(s.as_str());
            let a = concat("String(", d.as_str());
            concat(a.as_str(), ")")
        },
        CustomCommandExpression::Callable(h) => {
            let d = crate::numbers::u64_to_string(*h);
            let a = concat("Callable(#", d.as_str());
            concat(a.as_str(), ")")
        },
    }
}

/// A custom command: what it runs and its help text.
pub struct CustomCommand {
    pub expression: CustomCommandExpression,
    pub help: String,
}

pub struct CustomCommandView {
    pub expression: ExpressionView,
    pub help: Seq<char>,
}

impl View for CustomCommand {
    type V = CustomCommandView;

    open spec fn view(&self) -> CustomCommandView {
        CustomCommandView { expression: self.expression@, help: self.help@ }
    }
}

/// The entries of a map of custom commands, in order, with their keys.
pub uninterp spec fn command_entries(m: IndexMap<String, CustomCommand>) -> Seq<
    (Seq<char>, CustomCommandView),
>;

/// Calls `IndexMap::new`: an empty map.
#[verifier::external_body]
fn commands_new() -> (r: IndexMap<String, CustomCommand>)
    ensures
        command_entries(r) == Seq::<(Seq<char>, CustomCommandView)>::empty(),
{
    IndexMap::new()
}

/// Calls `IndexMap::len`: the number of entries.
#[verifier::external_body]
fn commands_len(m: &IndexMap<String, CustomCommand>) -> (r: usize)
    ensures
        r == command_entries(*m).len(),
{
    m.len()
}

/// Calls `IndexMap::insert`: an existing key keeps its place and gets the new
/// value (the old one is returned); a new key is appended. Keys stay distinct.
#[verifier::external_body]
fn commands_insert(m: &mut IndexMap<String, CustomCommand>, key: String, value: CustomCommand) -> (r: Option<CustomCommand>)
    ensures
        distinct_keys(command_entries(*final(m))),
        match key_index(command_entries(*old(m)), key@) {
            Some(i) => command_entries(*final(m)) == command_entries(*old(m)).update(i, (key@, value@)) && (r matches Some(v) && v@ == command_entries(*old(m))[i].1),
            None => command_entries(*final(m)) == command_entries(*old(m)).push((key@, value@)) && r is None,
        },
{
    m.insert(key, value)
}

/// Calls `IndexMap::shift_remove`: the entry with the key is removed and the
/// later entries move up, keeping their order; its value is returned.
#[verifier::external_body]
fn commands_shift_remove(m: &mut IndexMap<String, CustomCommand>, key: &str) -> (r: Option<CustomCommand>)
    ensures
        distinct_keys(command_entries(*final(m))),
        match key_index(command_entries(*old(m)), key@) {
            Some(i) => command_entries(*final(m)) == command_entries(*old(m)).remove(i) && (r matches Some(v) && v@ == command_entries(*old(m))[i].1),
            None => command_entries(*final(m)) == command_entries(*old(m)) && r is None,
        },
{
    m.shift_remove(key)
}

/// Calls `IndexMap::get`: the value stored for the key.
#[verifier::external_body]
fn commands_get<'a>(m: &'a IndexMap<String, CustomCommand>, key: &str) -> (r: Option<&'a CustomCommand>)
    ensures
        match key_index(command_entries(*m), key@) {
            Some(i) => r matches Some(v) && v@ == command_entries(*m)[i].1,
            None => r is None,
        },
{
    m.get(key)
}

/// Calls `IndexMap::get_index`: the entry at a position.
#[verifier::external_body]
fn commands_get_index<'a>(m: &'a IndexMap<String, CustomCommand>, i: usize) -> (r: Option<(&'a String, &'a CustomCommand)>)
    ensures
        i < command_entries(*m).len() ==> (r is Some && r.unwrap().0@ == command_entries(*m)[i as int].0 && r.unwrap().1@ == command_entries(*m)[i as int].1),
        i >= command_entries(*m).len() ==> r is None,
{
    m.get_index(i)
}

/// Calls `IndexMap::clear`: no entries remain.
#[verifier::external_body]
fn commands_clear(m: &mut IndexMap<String, CustomCommand>)
    ensures
        command_entries(*final(m)) == Seq::<(Seq<char>, CustomCommandView)>::empty(),
{
    m.clear()
}

/// The custom commands, in the order they were first added.
pub struct CommandRegistry {
    map: IndexMap<String, CustomCommand>,
}

/// The lines `name = expression` that list the entries `s`.
pub open spec fn command_list_lines(s: Seq<(Seq<char>, CustomCommandView)>) -> Seq<Seq<char>> {
    s.map_values(|p: (Seq<char>, CustomCommandView)| p.0 + " = "@ + expression_text(p.1.expression))
}

impl CommandRegistry {
    /// The custom commands, each with its name.
    pub closed spec fn entries(&self) -> Seq<(Seq<char>, CustomCommandView)> {
        command_entries(self.map)
    }

    /// No name is listed twice.
    pub open spec fn wf(&self) -> bool {
        distinct_keys(self.entries())
    }

    /// No custom commands.
    pub fn new() -> (r: Self)
        ensures
            r.wf(),
            r.entries().len() == 0,
    {
        CommandRegistry { map: commands_new() }
    }

    /// Adds a command under a name, replacing (in place) any command of that name.
    pub fn add(&mut self, name: CommandName, command: CustomCommand)
        requires
            old(self).wf(),
        ensures
            final(self).wf(),
            final(self).entries() == with_entry(old(self).entries(), name@, command@),
    {
        let key = string_of(&chars_of(name.as_str()));
        let _ = commands_insert(&mut self.map, key, command);
    }

    /// Removes the command of that name, if there is one.
    pub fn remove(&mut self, name: &str)
        requires
            old(self).wf(),
        ensures
            final(self).wf(),
            final(self).entries() == without_entry(old(self).entries(), name@),
    {
        let _ = commands_shift_remove(&mut self.map, name);
    }

    /// Removes every command.
    pub fn clear(&mut self)
        ensures
            final(self).wf(),
            final(self).entries().len() == 0,
    {
        commands_clear(&mut self.map);
    }

    /// The command of that name.
    pub fn get(&self, name: &str) -> (r: Option<&CustomCommand>)
        ensures
            match lookup(self.entries(), name@) {
                Some(v) => r matches Some(c) && c@ == v,
                None => r is None,
            },
    {
        commands_get(&self.map, name)
    }

    /// The number of commands.
    pub fn len(&self) -> (r: usize)
        ensures
            r == self.entries().len(),
    {
        commands_len(&self.map)
    }

    /// The name and help text of each command, in order (the subcommands that
    /// the command parser is extended with).
    pub fn subcommands(&self) -> (r: Vec<(String, String)>)
        ensures
            r@.len() == self.entries().len(),
            forall|k: int|
                0 <= k < r@.len() ==> (#[trigger] r@[k]).0@ == self.entries()[k].0 && r@[k].1@
                    == self.entries()[k].1.help,
    {
        let n = commands_len(&self.map);
        let mut out: Vec<(String, String)> = Vec::new();
        for i in 0..n
            invariant
                n == self.entries().len(),
                out@.len() == i,
                forall|k: int|
                    0 <= k < i ==> (#[trigger] out@[k]).0@ == self.entries()[k].0 && out@[k].1@
                        == self.entries()[k].1.help,
        {
            match commands_get_index(&self.map, i) {
                Some((k, c)) => {
                    out.push((k.clone(), c.help.clone()));
                },
                None => {},
            }
        }
        out
    }

    /// One line `name = expression` per command, in order.
    pub fn list(&self) -> (r: String)
        ensures
            r@ == join_lines(command_list_lines(self.entries())),
    {
        let n = commands_len(&self.map);
        let mut out: Vec<char> = Vec::new();
        for i in 0..n
            invariant
                n == self.entries().len(),
                out@ == join_lines(command_list_lines(self.entries()).take(i as int)),
        {
            match commands_get_index(&self.map, i) {
                Some((k, c)) => {
                    let a = concat(k.as_str(), " = ");
                    let line = concat(a.as_str(), describe_expression(&c.expression).as_str());
                    let ghost lines = command_list_lines(self.entries()).take(i + 1);
                    assert(lines.drop_last() =~= command_list_lines(self.entries()).take(i as int));
                    assert(lines.last() == line@);
                    append_line(&mut out, i > 0, line.as_str());
                    assert(out@ =~= join_lines(lines));
                },
                None => {},
            }
        }
        assert(command_list_lines(self.entries()).take(n as int) =~= command_list_lines(
            self.entries(),
        ));
        string_of(&out)
    }
}

/// Appends `line` to `out`, after a `\n` when `sep` is set.
pub fn append_line(out: &mut Vec<char>, sep: bool, line: &str)
    ensures
        final(out)@ == (if sep {
            old(out)@ + seq!['\n'] + line@
        } else {
            old(out)@ + line@
        }),
{
    let ghost start = old(out)@;
    if sep {
        out.push('\n');
    }
    let ghost mid = out@;
    let v = chars_of(line);
    let mut k: usize = 0;
    while k < v.len()
        invariant
            k <= v.len(),
            out@ == mid + v@.take(k as int),
        decreases v.len() - k,
    {
        out.push(v[k]);
        assert(v@.take(k + 1) == v@.take(k as int).push(v@[k as int]));
        assert(out@ =~= mid + v@.take(k + 1));
        k += 1;
    }
    assert(v@.take(v.len() as int) == v@);
    proof {
        if sep {
            assert(mid == start + seq!['\n']);
        } else {
            assert(mid == start);
        }
    }
}

/// The subcommands of `:cmd`.
pub enum CommandAction {
    /// Adds a custom command that runs `body` (joined with spaces).
    Add { name: String, body: Vec<String> },
    /// Removes a custom command.
    Remove { name: String },
    /// Lists the custom commands.
    List,
    /// Removes all custom commands.
    Clear,
}

/// The words joined with single spaces.
pub open spec fn join_words(words: Seq<Seq<char>>) -> Seq<char>
    decreases words.len(),
{
    if words.len() == 0 {
        seq![]
    } else if words.len() == 1 {
        words[0]
    } else {
        join_words(words.drop_last()) + seq![' '] + words.last()
    }
}

/// `words.join(" ")`.
pub fn join_with_spaces(words: &Vec<String>) -> (r: String)
    ensures
        r@ == join_words(crate::text::views(words@)),
{
    let mut out: Vec<char> = Vec::new();
    for i in 0..words.len()
        invariant
            out@ == join_words(crate::text::views(words@).take(i as int)),
    {
        let ghost ws = crate::text::views(words@).take(i + 1);
        assert(ws.drop_last() =~= crate::text::views(words@).take(i as int));
        assert(ws.last() == words@[i as int]@);
        let ghost before = out@;
        if i > 0 {
            out.push(' ');
        }
        let v = chars_of(words[i].as_str());
        let ghost mid = out@;
        let mut k: usize = 0;
        while k < v.len()
            invariant
                k <= v.len(),
                out@ == mid + v@.take(k as int),
            decreases v.len() - k,
        {
            out.push(v[k]);
            assert(v@.take(k + 1) == v@.take(k as int).push(v@[k as int]));
            assert(out@ =~= mid + v@.take(k + 1));
            k += 1;
        }
        assert(v@.take(v.len() as int) == v@);
        assert(out@ =~= join_words(ws));
    }
    assert(crate::text::views(words@).take(words.len() as int) =~= crate::text::views(words@));
    string_of(&out)
}

/// What a console command gives back.
#[derive(Debug, PartialEq, Eq)]
pub enum CommandOutput {
    /// Nothing.
    Nil,
    /// A text.
    Text(String),
    /// A flag.
    Bool(bool),
}

impl CommandRegistry {
    /// Runs a `:cmd` subcommand. `reserved` holds the names and aliases of the
    /// built-in commands, which a custom command may not take.
    pub fn handle(&mut self, action: CommandAction, reserved: &Vec<String>) -> (r: Result<
        CommandOutput,
        CommandNameError,
    >)
        requires
            old(self).wf(),
        ensures
            final(self).wf(),
            match action {
                CommandAction::Add { name, body } => {
                    let e = join_words(crate::text::views(body@));
                    let c = CustomCommandView { expression: ExpressionView::String(e), help: e };
                    if !crate::names::valid_command_name(name@) {
                        r matches Err(CommandNameError::Invalid(n)) && n@ == name@ && final(self).entries() == old(self).entries()
                    } else if crate::names::name_views(reserved@).contains(name@) {
                        r matches Err(CommandNameError::Reserved(n)) && n@ == name@ && final(self).entries() == old(self).entries()
                    } else {
                        r matches Ok(CommandOutput::Nil) && final(self).entries() == match key_index(old(self).entries(), name@) {
                            Some(i) => old(self).entries().update(i, (name@, c)),
                            None => old(self).entries().push((name@, c)),
                        }
                    }
                },
                CommandAction::Remove { name } => r matches Ok(CommandOutput::Nil) && final(self).entries() == match key_index(old(self).entries(), name@) {
                    Some(i) => old(self).entries().remove(i),
                    None => old(self).entries(),
                },
                CommandAction::List => (r matches Ok(CommandOutput::Text(t)) && t@ == join_lines(command_list_lines(old(self).entries())))
                    && final(self).entries() == old(self).entries(),
                CommandAction::Clear => r matches Ok(CommandOutput::Nil) && final(self).entries().len() == 0,
            },
    {
        match action {
            CommandAction::Add { name, body } => {
                let name = match CommandName::new(name, reserved) {
                    Ok(n) => n,
                    Err(e) => return Err(e),
                };
                let expression = join_with_spaces(&body);
                let help = expression.clone();
                self.add(name, CustomCommand { expression: CustomCommandExpression::String(expression), help });
                Ok(CommandOutput::Nil)
            },
            CommandAction::Remove { name } => {
                self.remove(name.as_str());
                Ok(CommandOutput::Nil)
            },
            CommandAction::List => Ok(CommandOutput::Text(self.list())),
            CommandAction::Clear => {
                self.clear();
                Ok(CommandOutput::Nil)
            },
        }
    }
}

/// Entry `i` is the only one with its key.
pub proof fn lemma_key_index_unique<K, V>(s: Seq<(K, V)>, i: int)
    requires
        distinct_keys(s),
        0 <= i < s.len(),
    ensures
        key_index(s, s[i].0) == Some(i),
{
    let k = s[i].0;
    assert(exists|j: int| 0 <= j < s.len() && s[j].0 == k);
    let c = choose|j: int| 0 <= j < s.len() && s[j].0 == k;
    if c != i {
        if c < i {
            assert(s[c].0 != s[i].0);
        } else {
            assert(s[i].0 != s[c].0);
        }
    }
}

/// The entries after setting `k` to `v`: replaced in place when `k` has an
/// entry, appended otherwise.
pub open spec fn with_entry<K, V>(s: Seq<(K, V)>, k: K, v: V) -> Seq<(K, V)> {
    match key_index(s, k) {
        Some(i) => s.update(i, (k, v)),
        None => s.push((k, v)),
    }
}

/// The entries after removing the one of `k`, if there is one; the others
/// keep their order.
pub open spec fn without_entry<K, V>(s: Seq<(K, V)>, k: K) -> Seq<(K, V)> {
    match key_index(s, k) {
        Some(i) => s.remove(i),
        None => s,
    }
}

/// The value of `k`, if it has an entry.
pub open spec fn lookup<K, V>(s: Seq<(K, V)>, k: K) -> Option<V> {
    match key_index(s, k) {
        Some(i) => Some(s[i].1),
        None => None,
    }
}

proof fn lemma_lookup_at<K, V>(s: Seq<(K, V)>, i: int)
    requires
        distinct_keys(s),
        0 <= i < s.len(),
    ensures
        lookup(s, s[i].0) == Some(s[i].1),
{
    lemma_key_index_unique(s, i);
}

proof fn lemma_lookup_absent<K, V>(s: Seq<(K, V)>, k: K)
    requires
        forall|i: int| 0 <= i < s.len() ==> s[i].0 != k,
    ensures
        lookup(s, k) is None,
{
}

/// What a read gives back of a write: after setting `k` to `v`, looking up `k`
/// gives `v`, every other key keeps its value, and no key occurs twice.
pub proof fn lemma_set_then_lookup<K, V>(s: Seq<(K, V)>, k: K, v: V, other: K)
    requires
        distinct_keys(s),
    ensures
        distinct_keys(with_entry(s, k, v)),
        lookup(with_entry(s, k, v), k) == Some(v),
        other != k ==> lookup(with_entry(s, k, v), other) == lookup(s, other),
{
    let t = with_entry(s, k, v);
    match key_index(s, k) {
        Some(i) => {
            assert(s[i].0 == k);
            assert forall|a: int, b: int| 0 <= a < b < t.len() implies t[a].0 != t[b].0 by {
                assert(t[a].0 == s[a].0);
                assert(t[b].0 == s[b].0);
            }
            lemma_lookup_at(t, i);
            if other != k {
                if exists|j: int| 0 <= j < s.len() && s[j].0 == other {
                    let j = choose|j: int| 0 <= j < s.len() && s[j].0 == other;
                    lemma_lookup_at(s, j);
                    assert(j != i);
                    assert(t[j] == s[j]);
                    lemma_lookup_at(t, j);
                } else {
                    lemma_lookup_absent(s, other);
                    assert forall|j: int| 0 <= j < t.len() implies t[j].0 != other by {
                        assert(t[j].0 == s[j].0);
                    }
                    lemma_lookup_absent(t, other);
                }
            }
        },
        None => {
            assert forall|j: int| 0 <= j < s.len() implies s[j].0 != k by {
                if s[j].0 == k {
                    assert(exists|x: int| 0 <= x < s.len() && s[x].0 == k);
                }
            }
            assert forall|a: int, b: int| 0 <= a < b < t.len() implies t[a].0 != t[b].0 by {
                if b < s.len() {
                    assert(t[a] == s[a] && t[b] == s[b]);
                } else {
                    assert(t[a] == s[a]);
                }
            }
            lemma_lookup_at(t, s.len() as int);
            if other != k {
                if exists|j: int| 0 <= j < s.len() && s[j].0 == other {
                    let j = choose|j: int| 0 <= j < s.len() && s[j].0 == other;
                    lemma_lookup_at(s, j);
                    assert(t[j] == s[j]);
                    lemma_lookup_at(t, j);
                } else {
                    lemma_lookup_absent(s, other);
                    assert forall|j: int| 0 <= j < t.len() implies t[j].0 != other by {
                        if j < s.len() {
                            assert(t[j] == s[j]);
                        }
                    }
                    lemma_lookup_absent(t, other);
                }
            }
        },
    }
}

/// After removing `k`, looking up `k` gives nothing and every other key keeps
/// its value.
pub proof fn lemma_remove_then_lookup<K, V>(s: Seq<(K, V)>, k: K, other: K)
    requires
        distinct_keys(s),
    ensures
        distinct_keys(without_entry(s, k)),
        lookup(without_entry(s, k), k) is None,
        other != k ==> lookup(without_entry(s, k), other) == lookup(s, other),
{
    let t = without_entry(s, k);
    match key_index(s, k) {
        Some(i) => {
            assert(s[i].0 == k);
            assert forall|a: int, b: int| 0 <= a < b < t.len() implies t[a].0 != t[b].0 by {
                let a2 = if a < i { a } else { a + 1 };
                let b2 = if b < i { b } else { b + 1 };
                assert(t[a] == s[a2]);
                assert(t[b] == s[b2]);
            }
            assert forall|j: int| 0 <= j < t.len() implies t[j].0 != k by {
                let j2 = if j < i { j } else { j + 1 };
                assert(t[j] == s[j2]);
                assert(j2 != i);
            }
            lemma_lookup_absent(t, k);
            if other != k {
                if exists|j: int| 0 <= j < s.len() && s[j].0 == other {
                    let j = choose|j: int| 0 <= j < s.len() && s[j].0 == other;
                    lemma_lookup_at(s, j);
                    assert(j != i);
                    let j1 = if j < i { j } else { j - 1 };
                    assert(t[j1] == s[j]);
                    lemma_lookup_at(t, j1);
                } else {
                    lemma_lookup_absent(s, other);
                    assert forall|j: int| 0 <= j < t.len() implies t[j].0 != other by {
                        let j2 = if j < i { j } else { j + 1 };
                        assert(t[j] == s[j2]);
                    }
                    lemma_lookup_absent(t, other);
                }
            }
        },
        None => {},
    }
}

/// A watched expression and the number of the slot that holds its latest result.
pub struct Watch {
    pub expression: CustomCommandExpression,
    pub slot: u64,
}

pub struct WatchView {
    pub expression: ExpressionView,
    pub slot: u64,
}

impl View for Watch {
    type V = WatchView;

    open spec fn view(&self) -> WatchView {
        WatchView { expression: self.expression@, slot: self.slot }
    }
}

/// The entries of a map of watches, in order, with their names.
pub uninterp spec fn watch_entries(m: IndexMap<String, Watch>) -> Seq<(Seq<char>, WatchView)>;

/// Calls `IndexMap::new`: an empty map.
#[verifier::external_body]
fn watches_new() -> (r: IndexMap<String, Watch>)
    ensures
        watch_entries(r) == Seq::<(Seq<char>, WatchView)>::empty(),
{
    IndexMap::new()
}

/// Calls `IndexMap::len`: the number of entries.
#[verifier::external_body]
fn watches_len(m: &IndexMap<String, Watch>) -> (r: usize)
    ensures
        r == watch_entries(*m).len(),
{
    m.len()
}

/// Calls `IndexMap::insert`: an existing key keeps its place and gets the new
/// value (the old one is returned); a new key is appended. Keys stay distinct.
#[verifier::external_body]
fn watches_insert(m: &mut IndexMap<String, Watch>, key: String, value: Watch) -> (r: Option<Watch>)
    ensures
        distinct_keys(watch_entries(*final(m))),
        match key_index(watch_entries(*old(m)), key@) {
            Some(i) => watch_entries(*final(m)) == watch_entries(*old(m)).update(i, (key@, value@)) && (r matches Some(v) && v@ == watch_entries(*old(m))[i].1),
            None => watch_entries(*final(m)) == watch_entries(*old(m)).push((key@, value@)) && r is None,
        },
{
    m.insert(key, value)
}

/// Calls `IndexMap::shift_remove`: the entry with the key is removed and the
/// later entries move up, keeping their order; its value is returned.
#[verifier::external_body]
fn watches_shift_remove(m: &mut IndexMap<String, Watch>, key: &str) -> (r: Option<Watch>)
    ensures
        distinct_keys(watch_entries(*final(m))),
        match key_index(watch_entries(*old(m)), key@) {
            Some(i) => watch_entries(*final(m)) == watch_entries(*old(m)).remove(i) && (r matches Some(v) && v@ == watch_entries(*old(m))[i].1),
            None => watch_entries(*final(m)) == watch_entries(*old(m)) && r is None,
        },
{
    m.shift_remove(key)
}

/// Calls `IndexMap::get_index`: the entry at a position.
#[verifier::external_body]
fn watches_get_index<'a>(m: &'a IndexMap<String, Watch>, i: usize) -> (r: Option<(&'a String, &'a Watch)>)
    ensures
        i < watch_entries(*m).len() ==> (r is Some && r.unwrap().0@ == watch_entries(*m)[i as int].0 && r.unwrap().1@ == watch_entries(*m)[i as int].1),
        i >= watch_entries(*m).len() ==> r is None,
{
    m.get_index(i)
}

/// Calls `IndexMap::clear`: no entries remain.
#[verifier::external_body]
fn watches_clear(m: &mut IndexMap<String, Watch>)
    ensures
        watch_entries(*final(m)) == Seq::<(Seq<char>, WatchView)>::empty(),
{
    m.clear()
}

/// The entries of `s` whose name does not start with `p`.
pub open spec fn without_prefix(s: Seq<(Seq<char>, WatchView)>, p: Seq<char>) -> Seq<(Seq<char>, WatchView)>
    decreases s.len(),
{
    if s.len() == 0 {
        seq![]
    } else if has_prefix(s.last().0, p) {
        without_prefix(s.drop_last(), p)
    } else {
        without_prefix(s.drop_last(), p).push(s.last())
    }
}

/// The names in `s` that start with `p`, in order.
pub open spec fn names_with_prefix(s: Seq<(Seq<char>, WatchView)>, p: Seq<char>) -> Seq<Seq<char>>
    decreases s.len(),
{
    if s.len() == 0 {
        seq![]
    } else if has_prefix(s.last().0, p) {
        names_with_prefix(s.drop_last(), p).push(s.last().0)
    } else {
        names_with_prefix(s.drop_last(), p)
    }
}

/// The position of the first entry whose name starts with `p`.
pub open spec fn first_with_prefix(s: Seq<(Seq<char>, WatchView)>, p: Seq<char>) -> Option<int>
    decreases s.len(),
{
    if s.len() == 0 {
        None
    } else if has_prefix(s[0].0, p) {
        Some(0)
    } else {
        match first_with_prefix(s.drop_first(), p) {
            Some(i) => Some(i + 1),
            None => None,
        }
    }
}

/// The watch found for a prefix is the earliest one (in insertion order) whose
/// name starts with it; none is found only when no name starts with it.
pub proof fn lemma_first_with_prefix(s: Seq<(Seq<char>, WatchView)>, p: Seq<char>)
    ensures
        match first_with_prefix(s, p) {
            Some(i) => 0 <= i < s.len() && has_prefix(s[i].0, p) && forall|j: int|
                0 <= j < i ==> !has_prefix(#[trigger] s[j].0, p),
            None => forall|j: int| 0 <= j < s.len() ==> !has_prefix(#[trigger] s[j].0, p),
        },
    decreases s.len(),
{
    if s.len() > 0 && !has_prefix(s[0].0, p) {
        let d = s.drop_first();
        lemma_first_with_prefix(d, p);
        assert forall|j: int| 1 <= j < s.len() implies s[j] == #[trigger] d[j - 1] by {}
        match first_with_prefix(d, p) {
            Some(i) => {
                assert(s[i + 1] == d[i]);
                assert forall|j: int| 0 <= j < i + 1 implies !has_prefix(#[trigger] s[j].0, p) by {
                    if j > 0 {
                        assert(s[j] == d[j - 1]);
                    }
                }
            },
            None => {
                assert forall|j: int| 0 <= j < s.len() implies !has_prefix(#[trigger] s[j].0, p) by {
                    if j > 0 {
                        assert(s[j] == d[j - 1]);
                    }
                }
            },
        }
    }
}

/// The subcommands of `:watch` that manage the registry.
pub enum WatchAction {
    /// Watches `expression` (its words joined with spaces) under `name`, with the given slot.
    Add { name: String, expression: Vec<String>, slot: u64 },
    /// Removes the first watch whose name starts with `prefix`, or all of them.
    Remove { prefix: String, all: bool },
    /// Lists the watches.
    List,
    /// Removes all watches.
    Clear,
    /// Starts every watch afresh.
    Refresh,
    /// Pauses or resumes evaluation.
    Pause,
}

/// The watches, in the order they were first added, and whether evaluation is paused.
pub struct Watches {
    map: IndexMap<String, Watch>,
    paused: bool,
}

/// The lines `name = expression` that list the entries `s`.
pub open spec fn watch_list_lines(s: Seq<(Seq<char>, WatchView)>) -> Seq<Seq<char>> {
    s.map_values(|p: (Seq<char>, WatchView)| p.0 + " = "@ + expression_text(p.1.expression))
}

impl Watches {
    pub closed spec fn entries(&self) -> Seq<(Seq<char>, WatchView)> {
        watch_entries(self.map)
    }

    /// No name is listed twice.
    pub open spec fn wf(&self) -> bool {
        distinct_keys(self.entries())
    }

    pub closed spec fn is_paused(&self) -> bool {
        self.paused
    }

    /// Whether evaluation is paused.
    pub fn paused(&self) -> (r: bool)
        ensures
            r == self.is_paused(),
    {
        self.paused
    }

    /// No watches, not paused.
    pub fn new() -> (r: Self)
        ensures
            r.wf(),
            r.entries().len() == 0,
            !r.is_paused(),
    {
        Watches { map: watches_new(), paused: false }
    }

    /// The number of watches.
    pub fn len(&self) -> (r: usize)
        ensures
            r == self.entries().len(),
    {
        watches_len(&self.map)
    }

    /// The watch at a position, with its name.
    pub fn get_index(&self, i: usize) -> (r: Option<(&String, &Watch)>)
        ensures
            i < self.entries().len() ==> (r is Some && r.unwrap().0@ == self.entries()[i as int].0
                && r.unwrap().1@ == self.entries()[i as int].1),
            i >= self.entries().len() ==> r is None,
    {
        watches_get_index(&self.map, i)
    }

    /// Adds or replaces (in place) a watch. Returns whether one was replaced.
    pub fn insert(&mut self, name: String, watch: Watch) -> (replaced: bool)
        requires
            old(self).wf(),
        ensures
            final(self).wf(),
            final(self).is_paused() == old(self).is_paused(),
            replaced == (key_index(old(self).entries(), name@) is Some),
            final(self).entries() == with_entry(old(self).entries(), name@, watch@),
    {
        let prev = watches_insert(&mut self.map, name, watch);
        prev.is_some()
    }

    /// Removes every watch whose name starts with `prefix`; returns their names in order.
    pub fn remove_all_with_prefix(&mut self, prefix: &str) -> (removed: Vec<String>)
        requires
            old(self).wf(),
        ensures
            final(self).wf(),
            final(self).is_paused() == old(self).is_paused(),
            final(self).entries() == without_prefix(old(self).entries(), prefix@),
            crate::text::views(removed@) == names_with_prefix(old(self).entries(), prefix@),
    {
        let ghost orig = self.entries();
        let p = chars_of(prefix);
        let mut removed: Vec<String> = Vec::new();
        let mut i: usize = 0;
        let ghost mut j: int = 0;
        while i < watches_len(&self.map)
            invariant
                self.wf(),
                self.is_paused() == old(self).is_paused(),
                orig == old(self).entries(),
                p@ == prefix@,
                0 <= j <= orig.len(),
                self.entries() == without_prefix(orig.take(j), prefix@) + orig.skip(j),
                i == without_prefix(orig.take(j), prefix@).len(),
                crate::text::views(removed@) == names_with_prefix(orig.take(j), prefix@),
            decreases orig.len() - j,
        {
            let ghost e = self.entries();
            let ghost w = without_prefix(orig.take(j), prefix@);
            assert(e[i as int] == orig[j]) by {
                assert(e[i as int] == orig.skip(j)[0]);
            }
            assert(orig.take(j + 1).drop_last() =~= orig.take(j));
            assert(orig.take(j + 1).last() == orig[j]);
            let (k, _) = watches_get_index(&self.map, i).unwrap();
            let key = k.clone();
            if starts_with(&chars_of(key.as_str()), &p) {
                proof {
                    lemma_key_index_unique(e, i as int);
                }
                let ghost before = removed@;
                removed.push(key.clone());
                assert(crate::text::views(removed@) =~= crate::text::views(before).push(key@));
                let _ = watches_shift_remove(&mut self.map, key.as_str());
                assert(e.remove(i as int) =~= w + orig.skip(j + 1));
            } else {
                assert(w.push(orig[j]) + orig.skip(j + 1) =~= e);
                i += 1;
            }
            proof {
                j = j + 1;
            }
        }
        proof {
            assert(self.entries().len() == i);
            assert(orig.skip(j).len() == 0) by {
                assert((without_prefix(orig.take(j), prefix@) + orig.skip(j)).len() == i);
            }
            assert(j == orig.len());
            assert(orig.take(j) =~= orig);
            assert(self.entries() =~= without_prefix(orig, prefix@));
        }
        removed
    }

    /// Removes the first watch whose name starts with `prefix`; returns its name.
    pub fn remove_first_with_prefix(&mut self, prefix: &str) -> (removed: Option<String>)
        requires
            old(self).wf(),
        ensures
            final(self).wf(),
            final(self).is_paused() == old(self).is_paused(),
            match first_with_prefix(old(self).entries(), prefix@) {
                Some(i) => final(self).entries() == old(self).entries().remove(i) && (removed matches Some(n) && n@ == old(self).entries()[i].0),
                None => final(self).entries() == old(self).entries() && removed is None,
            },
    {
        let ghost orig = self.entries();
        let p = chars_of(prefix);
        let n = watches_len(&self.map);
        let mut i: usize = 0;
        assert(orig.skip(0) =~= orig);
        while i < n
            invariant
                n == orig.len(),
                orig == self.entries(),
                self.wf(),
                self.is_paused() == old(self).is_paused(),
                orig == old(self).entries(),
                p@ == prefix@,
                i <= n,
                first_with_prefix(orig, prefix@) == match first_with_prefix(orig.skip(i as int), prefix@) {
                    Some(k) => Some(k + i),
                    None => None,
                },
            decreases n - i,
        {
            let (k, _) = watches_get_index(&self.map, i).unwrap();
            let key = k.clone();
            assert(orig.skip(i as int)[0] == orig[i as int]);
            if starts_with(&chars_of(key.as_str()), &p) {
                proof {
                    lemma_key_index_unique(orig, i as int);
                }
                let _ = watches_shift_remove(&mut self.map, key.as_str());
                return Some(key);
            }
            assert(orig.skip(i as int).drop_first() =~= orig.skip(i + 1));
            i += 1;
        }
        None
    }

    /// One line `name = expression` per watch, in order.
    pub fn list(&self) -> (r: String)
        ensures
            r@ == join_lines(watch_list_lines(self.entries())),
    {
        let n = watches_len(&self.map);
        let mut out: Vec<char> = Vec::new();
        for i in 0..n
            invariant
                n == self.entries().len(),
                out@ == join_lines(watch_list_lines(self.entries()).take(i as int)),
        {
            match watches_get_index(&self.map, i) {
                Some((k, w)) => {
                    let a = concat(k.as_str(), " = ");
                    let line = concat(a.as_str(), describe_expression(&w.expression).as_str());
                    let ghost lines = watch_list_lines(self.entries()).take(i + 1);
                    assert(lines.drop_last() =~= watch_list_lines(self.entries()).take(i as int));
                    assert(lines.last() == line@);
                    append_line(&mut out, i > 0, line.as_str());
                    assert(out@ =~= join_lines(lines));
                },
                None => {},
            }
        }
        assert(watch_list_lines(self.entries()).take(n as int) =~= watch_list_lines(self.entries()));
        string_of(&out)
    }

    /// Removes every watch.
    pub fn clear(&mut self)
        ensures
            final(self).wf(),
            final(self).is_paused() == old(self).is_paused(),
            final(self).entries().len() == 0,
    {
        watches_clear(&mut self.map);
    }
}

/// `text` between backticks, ending in a period: `` `text`. ``.
pub open spec fn quoted(text: Seq<char>) -> Seq<char> {
    "`"@ + text + "`."@
}

fn quote(text: &str) -> (r: String)
    ensures
        r@ == quoted(text@),
{
    let a = concat("`", text);
    concat(a.as_str(), "`.")
}

/// What a `:watch` subcommand answers, given the registry before it ran.
pub open spec fn watch_reply(action: WatchAction, before: Seq<(Seq<char>, WatchView)>, paused_before: bool) -> CommandOutputView {
    match action {
        WatchAction::Add { name, .. } => CommandOutputView::Text(
            if key_index(before, name@) is Some {
                "Overwrote watch "@ + quoted(name@)
            } else {
                "Added new watch "@ + quoted(name@)
            },
        ),
        WatchAction::Remove { prefix, all } => CommandOutputView::Text(
            if all {
                let names = names_with_prefix(before, prefix@);
                if names.len() > 0 {
                    "Removed "@ + crate::numbers::decimal(names.len() as int) + " watches:\n"@ + join_lines(names)
                } else {
                    "No watches found with prefix "@ + quoted(prefix@)
                }
            } else {
                match first_with_prefix(before, prefix@) {
                    Some(i) => "Removed watch "@ + quoted(before[i].0),
                    None => "No watch found with prefix "@ + quoted(prefix@),
                }
            },
        ),
        WatchAction::List => CommandOutputView::Text(join_lines(watch_list_lines(before))),
        WatchAction::Clear => CommandOutputView::Text(
            "Cleared "@ + crate::numbers::decimal(before.len() as int) + " watches."@,
        ),
        WatchAction::Refresh => CommandOutputView::Text(
            "Refreshed "@ + crate::numbers::decimal(before.len() as int) + " watches."@,
        ),
        WatchAction::Pause => CommandOutputView::Bool(!paused_before),
    }
}

/// What a `:watch` subcommand leaves in the registry.
pub open spec fn watch_effect(action: WatchAction, before: Seq<(Seq<char>, WatchView)>) -> Seq<(Seq<char>, WatchView)> {
    match action {
        WatchAction::Add { name, expression, slot } => {
            let w = WatchView {
                expression: ExpressionView::String(join_words(crate::text::views(expression@))),
                slot,
            };
            match key_index(before, name@) {
                Some(i) => before.update(i, (name@, w)),
                None => before.push((name@, w)),
            }
        },
        WatchAction::Remove { prefix, all } => if all {
            without_prefix(before, prefix@)
        } else {
            match first_with_prefix(before, prefix@) {
                Some(i) => before.remove(i),
                None => before,
            }
        },
        WatchAction::Clear => seq![],
        _ => before,
    }
}

/// What a console command gives back, as values.
pub enum CommandOutputView {
    Nil,
    Text(Seq<char>),
    Bool(bool),
}

impl View for CommandOutput {
    type V = CommandOutputView;

    open spec fn view(&self) -> CommandOutputView {
        match self {
            CommandOutput::Nil => CommandOutputView::Nil,
            CommandOutput::Text(t) => CommandOutputView::Text(t@),
            CommandOutput::Bool(b) => CommandOutputView::Bool(*b),
        }
    }
}

impl Watches {
    /// Runs a `:watch` subcommand on the registry. (Refreshing the slots themselves
    /// is the caller's part; the registry is unchanged by it.)
    pub fn handle(&mut self, action: WatchAction) -> (r: CommandOutput)
        requires
            old(self).wf(),
        ensures
            final(self).wf(),
            r@ == watch_reply(action, old(self).entries(), old(self).is_paused()),
            final(self).entries() == watch_effect(action, old(self).entries()),
            final(self).is_paused() == (if action is Pause { !old(self).is_paused() } else { old(self).is_paused() }),
    {
        match action {
            WatchAction::Add { name, expression, slot } => {
                let text = join_with_spaces(&expression);
                let shown = quote(name.as_str());
                let replaced = self.insert(
                    name,
                    Watch { expression: CustomCommandExpression::String(text), slot },
                );
                if replaced {
                    CommandOutput::Text(concat("Overwrote watch ", shown.as_str()))
                } else {
                    CommandOutput::Text(concat("Added new watch ", shown.as_str()))
                }
            },
            WatchAction::Remove { prefix, all } => {
                if all {
                    let removed = self.remove_all_with_prefix(prefix.as_str());
                    if removed.len() > 0 {
                        let a = concat("Removed ", crate::numbers::u64_to_string(removed.len() as u64).as_str());
                        let b = concat(a.as_str(), " watches:\n");
                        let mut out = chars_of(b.as_str());
                        let ghost start = out@;
                        for k in 0..removed.len()
                            invariant
                                out@ == start + join_lines(crate::text::views(removed@).take(k as int)),
                        {
                            let ghost ls = crate::text::views(removed@).take(k + 1);
                            assert(ls.drop_last() =~= crate::text::views(removed@).take(k as int));
                            assert(ls.last() == removed@[k as int]@);
                            append_line(&mut out, k > 0, removed[k].as_str());
                            assert(out@ =~= start + join_lines(ls));
                        }
                        assert(crate::text::views(removed@).take(removed.len() as int) =~= crate::text::views(removed@));
                        CommandOutput::Text(string_of(&out))
                    } else {
                        CommandOutput::Text(concat("No watches found with prefix ", quote(prefix.as_str()).as_str()))
                    }
                } else {
                    match self.remove_first_with_prefix(prefix.as_str()) {
                        Some(name) => CommandOutput::Text(concat("Removed watch ", quote(name.as_str()).as_str())),
                        None => CommandOutput::Text(concat("No watch found with prefix ", quote(prefix.as_str()).as_str())),
                    }
                }
            },
            WatchAction::List => CommandOutput::Text(self.list()),
            WatchAction::Clear => {
                let n = self.len();
                self.clear();
                let a = concat("Cleared ", crate::numbers::u64_to_string(n as u64).as_str());
                CommandOutput::Text(concat(a.as_str(), " watches."))
            },
            WatchAction::Refresh => {
                let n = self.len();
                let a = concat("Refreshed ", crate::numbers::u64_to_string(n as u64).as_str());
                CommandOutput::Text(concat(a.as_str(), " watches."))
            },
            WatchAction::Pause => {
                self.paused = !self.paused;
                CommandOutput::Bool(self.paused)
            },
        }
    }
}

/// What kind of value `:watch signals` watches the signals of.
#[derive(Debug, Clone, Copy, PartialEq, Eq, Structural)]
pub enum WatchableKind {
    Node,
    Resource,
    Object,
}

/// How the watches of signals are named: `Name.signal`, with the object's
/// identity, or with its path.
#[derive(Debug, Clone, Copy, PartialEq, Eq, Structural)]
pub enum WatchNameStyle {
    Name,
    NameWithId,
    Path,
}

/// The word for a kind of watched value.
pub fn watchable_kind_text(kind: WatchableKind) -> (r: &'static str)
    ensures
        r@ == watchable_kind_text_spec(kind),
{
    match kind {
        WatchableKind::Node => "node",
        WatchableKind::Resource => "resource",
        WatchableKind::Object => "object",
    }
}

/// The name of a watched value: a node's name; a resource's name, or its class
/// when it has none; an object's class.
pub fn watchable_name(kind: WatchableKind, name: &str, class: &str) -> (r: String)
    ensures
        r@ == match kind {
            WatchableKind::Node => name@,
            WatchableKind::Resource => if name@.len() > 0 {
                name@
            } else {
                class@
            },
            WatchableKind::Object => class@,
        },
{
    match kind {
        WatchableKind::Node => String::from_str(name),
        WatchableKind::Resource => {
            if chars_of(name).len() > 0 {
                String::from_str(name)
            } else {
                String::from_str(class)
            }
        },
        WatchableKind::Object => String::from_str(class),
    }
}

/// The start of the names of signal watches: the value's name, its identity
/// text, or its path (which only nodes and resources have).
pub fn signal_watch_prefix(style: WatchNameStyle, name: &str, identity: &str, path: Option<&str>) -> (r: Result<
    String,
    String,
>)
    ensures
        match style {
            WatchNameStyle::Name => r is Ok && r->Ok_0@ == name@,
            WatchNameStyle::NameWithId => r is Ok && r->Ok_0@ == identity@,
            WatchNameStyle::Path => match path {
                Some(p) => r is Ok && r->Ok_0@ == p@,
                None => r is Err && r->Err_0@ == "User requested to visualize watch using the `Path` style, but the given expression did not return a Node or Resource, so it does not have a path"@,
            },
        },
{
    match style {
        WatchNameStyle::Name => Ok(String::from_str(name)),
        WatchNameStyle::NameWithId => Ok(String::from_str(identity)),
        WatchNameStyle::Path => match path {
            Some(p) => Ok(String::from_str(p)),
            None => Err(
                String::from_str(
                    "User requested to visualize watch using the `Path` style, but the given expression did not return a Node or Resource, so it does not have a path",
                ),
            ),
        },
    }
}

/// The watches made for the signals: one per signal whose name is a valid
/// variable name, named `prefix.signal`, each with its signal.
pub open spec fn signal_watches(prefix: Seq<char>, signals: Seq<Seq<char>>) -> Seq<(Seq<char>, Seq<char>)> {
    signals.filter(|n: Seq<char>| crate::names::valid_variable_name(n)).map_values(
        |n: Seq<char>| (n, prefix + seq!['.'] + n),
    )
}

/// The signals to watch and the name of each watch.
pub fn signal_watch_names(prefix: &str, signals: &Vec<String>) -> (r: Vec<(String, String)>)
    ensures
        r@.map_values(|p: (String, String)| (p.0@, p.1@)) == signal_watches(prefix@, crate::text::views(signals@)),
{
    let ghost sv = crate::text::views(signals@);
    let mut out: Vec<(String, String)> = Vec::new();
    for k in 0..signals.len()
        invariant
            sv == crate::text::views(signals@),
            out@.map_values(|p: (String, String)| (p.0@, p.1@)) == signal_watches(prefix@, sv.take(k as int)),
    {
        let ghost before = out@;
        proof {
            assert(sv.take(k + 1).drop_last() =~= sv.take(k as int));
            assert(sv.take(k + 1).last() == signals@[k as int]@);
            reveal_with_fuel(Seq::filter, 1);
        }
        if crate::names::is_valid_variable_name(signals[k].as_str()) {
            let a = concat(prefix, ".");
            let name = concat(a.as_str(), signals[k].as_str());
            proof {
                reveal_strlit(".");
                assert("."@ =~= seq!['.']);
            }
            out.push((signals[k].clone(), name));
            proof {
                let f = |n: Seq<char>| crate::names::valid_variable_name(n);
                let m = |n: Seq<char>| (n, prefix@ + seq!['.'] + n);
                let kept = sv.take(k as int).filter(f);
                assert(sv.take(k + 1).filter(f) =~= kept.push(sv[k as int]));
                assert(kept.push(sv[k as int]).map_values(m) =~= kept.map_values(m).push(m(sv[k as int])));
                assert(out@.map_values(|p: (String, String)| (p.0@, p.1@)) =~= before.map_values(
                    |p: (String, String)| (p.0@, p.1@),
                ).push(m(sv[k as int])));
            }
        } else {
            assert(sv.take(k + 1).filter(|n: Seq<char>| crate::names::valid_variable_name(n)) =~= sv.take(
                k as int,
            ).filter(|n: Seq<char>| crate::names::valid_variable_name(n)));
        }
    }
    assert(sv.take(signals.len() as int) =~= sv);
    out
}

/// The answer of `:watch signals`: how many signals the value has, its kind,
/// and its path (or its identity text when it has none).
pub fn signals_added_message(signal_count: u64, kind: WatchableKind, shown_name: &str) -> (r: String)
    ensures
        r@ == "Added "@ + crate::numbers::decimal(signal_count as int) + " watches for "@ + watchable_kind_text_spec(
            kind,
        ) + " `"@ + shown_name@ + "`."@,
{
    let a = concat("Added ", crate::numbers::u64_to_string(signal_count).as_str());
    let b = concat(a.as_str(), " watches for ");
    let c = concat(b.as_str(), watchable_kind_text(kind));
    let d = concat(c.as_str(), " `");
    let e = concat(d.as_str(), shown_name);
    concat(e.as_str(), "`.")
}

/// The word for a kind of watched value.
pub open spec fn watchable_kind_text_spec(kind: WatchableKind) -> Seq<char> {
    match kind {
        WatchableKind::Node => "node"@,
        WatchableKind::Resource => "resource"@,
        WatchableKind::Object => "object"@,
    }
}

/// A client of the remote console.
pub struct ConsoleClient {
    /// How many commands the client has run.
    pub commands_run: usize,
}

impl View for ConsoleClient {
    type V = usize;

    open spec fn view(&self) -> usize {
        self.commands_run
    }
}

/// The entries of a map of remote clients, in order, with their addresses.
pub uninterp spec fn client_entries(m: IndexMap<String, ConsoleClient>) -> Seq<(Seq<char>, usize)>;

/// Calls `IndexMap::new`: an empty map.
#[verifier::external_body]
fn clients_new() -> (r: IndexMap<String, ConsoleClient>)
    ensures
        client_entries(r) == Seq::<(Seq<char>, usize)>::empty(),
{
    IndexMap::new()
}

/// Calls `IndexMap::len`: the number of entries.
#[verifier::external_body]
fn clients_len(m: &IndexMap<String, ConsoleClient>) -> (r: usize)
    ensures
        r == client_entries(*m).len(),
{
    m.len()
}

/// Calls `IndexMap::insert`: an existing key keeps its place and gets the new
/// value (the old one is returned); a new key is appended. Keys stay distinct.
#[verifier::external_body]
fn clients_insert(m: &mut IndexMap<String, ConsoleClient>, key: String, value: ConsoleClient) -> (r: Option<ConsoleClient>)
    ensures
        distinct_keys(client_entries(*final(m))),
        match key_index(client_entries(*old(m)), key@) {
            Some(i) => client_entries(*final(m)) == client_entries(*old(m)).update(i, (key@, value@)) && (r matches Some(v) && v@ == client_entries(*old(m))[i].1),
            None => client_entries(*final(m)) == client_entries(*old(m)).push((key@, value@)) && r is None,
        },
{
    m.insert(key, value)
}

/// Calls `IndexMap::shift_remove`: the entry with the key is removed and the
/// later entries move up, keeping their order; its value is returned.
#[verifier::external_body]
fn clients_shift_remove(m: &mut IndexMap<String, ConsoleClient>, key: &str) -> (r: Option<ConsoleClient>)
    ensures
        distinct_keys(client_entries(*final(m))),
        match key_index(client_entries(*old(m)), key@) {
            Some(i) => client_entries(*final(m)) == client_entries(*old(m)).remove(i) && (r matches Some(v) && v@ == client_entries(*old(m))[i].1),
            None => client_entries(*final(m)) == client_entries(*old(m)) && r is None,
        },
{
    m.shift_remove(key)
}

/// Calls `IndexMap::get`: the value stored for the key.
#[verifier::external_body]
fn clients_get<'a>(m: &'a IndexMap<String, ConsoleClient>, key: &str) -> (r: Option<&'a ConsoleClient>)
    ensures
        match key_index(client_entries(*m), key@) {
            Some(i) => r matches Some(v) && v@ == client_entries(*m)[i].1,
            None => r is None,
        },
{
    m.get(key)
}

/// Calls `IndexMap::get_index`: the entry at a position.
#[verifier::external_body]
fn clients_get_index<'a>(m: &'a IndexMap<String, ConsoleClient>, i: usize) -> (r: Option<(&'a String, &'a ConsoleClient)>)
    ensures
        i < client_entries(*m).len() ==> (r is Some && r.unwrap().0@ == client_entries(*m)[i as int].0 && r.unwrap().1@ == client_entries(*m)[i as int].1),
        i >= client_entries(*m).len() ==> r is None,
{
    m.get_index(i)
}

/// What happened to a remote client.
pub enum ConsoleClientEvent {
    Connected,
    Disconnected,
    RanCommand,
}

/// How a client event was taken.
#[derive(Debug, PartialEq, Eq)]
pub enum ClientEventOutcome {
    /// As expected.
    Applied,
    /// A client connected that was already listed (with that many commands run);
    /// it starts over.
    AlreadyPresent(usize),
    /// A client that is not listed ran a command.
    MissingClient,
}

/// The running remote console: where it listens, and its clients in the order
/// they connected.
pub struct ConsoleServer {
    connections: IndexMap<String, ConsoleClient>,
    ip: String,
    port: u16,
}

impl ConsoleServer {
    pub closed spec fn clients(&self) -> Seq<(Seq<char>, usize)> {
        client_entries(self.connections)
    }

    /// No client is listed twice.
    pub open spec fn wf(&self) -> bool {
        distinct_keys(self.clients())
    }

    /// The address and port the server listens on.
    pub closed spec fn listening(&self) -> (Seq<char>, u16) {
        (self.ip@, self.port)
    }

    /// The address the server listens on.
    pub fn ip(&self) -> (r: &String)
        ensures
            r@ == self.listening().0,
    {
        &self.ip
    }

    /// The port the server listens on.
    pub fn port(&self) -> (r: u16)
        ensures
            r == self.listening().1,
    {
        self.port
    }

    /// A server listening on `ip:port`, without clients.
    pub fn new(ip: String, port: u16) -> (r: Self)
        ensures
            r.wf(),
            r.clients().len() == 0,
            r.listening() == (ip@, port),
    {
        ConsoleServer { connections: clients_new(), ip, port }
    }

    /// The number of clients.
    pub fn len(&self) -> (r: usize)
        ensures
            r == self.clients().len(),
    {
        clients_len(&self.connections)
    }

    /// The client at a position: its address and command count.
    pub fn client_at(&self, i: usize) -> (r: Option<(&String, usize)>)
        ensures
            i < self.clients().len() ==> (r is Some && r.unwrap().0@ == self.clients()[i as int].0
                && r.unwrap().1 == self.clients()[i as int].1),
            i >= self.clients().len() ==> r is None,
    {
        match clients_get_index(&self.connections, i) {
            Some((k, c)) => Some((k, c.commands_run)),
            None => None,
        }
    }

    /// Updates the client list for an event from the client at `addr`: a
    /// connection adds it with no commands run, a disconnection removes it, and a
    /// command adds one to its count (which stops at the largest `usize`).
    pub fn handle_client_event(&mut self, addr: String, event: ConsoleClientEvent) -> (r: ClientEventOutcome)
        requires
            old(self).wf(),
        ensures
            final(self).wf(),
            final(self).listening() == old(self).listening(),
            match event {
                ConsoleClientEvent::Connected => match key_index(old(self).clients(), addr@) {
                    Some(i) => final(self).clients() == old(self).clients().update(i, (addr@, 0usize))
                        && r == ClientEventOutcome::AlreadyPresent(old(self).clients()[i].1),
                    None => final(self).clients() == old(self).clients().push((addr@, 0usize))
                        && r == ClientEventOutcome::Applied,
                },
                ConsoleClientEvent::Disconnected => r == ClientEventOutcome::Applied
                    && final(self).clients() == match key_index(old(self).clients(), addr@) {
                        Some(i) => old(self).clients().remove(i),
                        None => old(self).clients(),
                    },
                ConsoleClientEvent::RanCommand => match key_index(old(self).clients(), addr@) {
                    Some(i) => r == ClientEventOutcome::Applied && final(self).clients()
                        == old(self).clients().update(i, (addr@, (if old(self).clients()[i].1 == usize::MAX {
                            usize::MAX
                        } else {
                            (old(self).clients()[i].1 + 1) as usize
                        }))),
                    None => r == ClientEventOutcome::MissingClient && final(self).clients() == old(self).clients(),
                },
            },
    {
        match event {
            ConsoleClientEvent::Connected => {
                match clients_insert(&mut self.connections, addr, ConsoleClient { commands_run: 0 }) {
                    Some(old) => ClientEventOutcome::AlreadyPresent(old.commands_run),
                    None => ClientEventOutcome::Applied,
                }
            },
            ConsoleClientEvent::Disconnected => {
                let _ = clients_shift_remove(&mut self.connections, addr.as_str());
                ClientEventOutcome::Applied
            },
            ConsoleClientEvent::RanCommand => {
                let count = match clients_get(&self.connections, addr.as_str()) {
                    Some(c) => c.commands_run,
                    None => return ClientEventOutcome::MissingClient,
                };
                let next = if count == usize::MAX {
                    usize::MAX
                } else {
                    count + 1
                };
                let _ = clients_insert(&mut self.connections, addr, ConsoleClient { commands_run: next });
                ClientEventOutcome::Applied
            },
        }
    }
}

/// The lines listing the clients: `- address (commands run: n)`.
pub open spec fn client_lines(c: Seq<(Seq<char>, usize)>) -> Seq<char>
    decreases c.len(),
{
    if c.len() == 0 {
        seq![]
    } else {
        client_lines(c.drop_last()) + "- "@ + c.last().0 + " (commands run: "@ + crate::numbers::decimal(
            c.last().1 as int,
        ) + ")\n"@
    }
}

/// The remote console's status panel: offline with a hint, or online with
/// the address and the connected clients.
pub open spec fn remote_status_spec(server: Option<(Seq<char>, u16, Seq<(Seq<char>, usize)>)>) -> Seq<char> {
    match server {
        None => "Status: offline\n\nTo start the remote console, run :cons remote start."@,
        Some((ip, port, clients)) => "Status: online ("@ + ip + ":"@ + crate::numbers::decimal(port as int) + ")\n"@
            + "Connected clients ("@ + crate::numbers::decimal(clients.len() as int) + "):\n"@ + client_lines(
            clients,
        ),
    }
}

/// The text of the remote console's status panel.
pub fn remote_status_text(server: Option<&ConsoleServer>) -> (r: String)
    ensures
        r@ == remote_status_spec(
            match server {
                Some(s) => Some((s.listening().0, s.listening().1, s.clients())),
                None => None,
            },
        ),
{
    match server {
        None => String::from_str("Status: offline\n\nTo start the remote console, run :cons remote start."),
        Some(s) => {
            let mut out: Vec<char> = Vec::new();
            crate::text::push_chars(&mut out, "Status: online (");
            crate::text::push_chars(&mut out, s.ip().as_str());
            crate::text::push_chars(&mut out, ":");
            crate::text::push_chars(&mut out, crate::numbers::u64_to_string(s.port() as u64).as_str());
            crate::text::push_chars(&mut out, ")\n");
            crate::text::push_chars(&mut out, "Connected clients (");
            let n = s.len();
            crate::text::push_chars(&mut out, crate::numbers::u64_to_string(n as u64).as_str());
            crate::text::push_chars(&mut out, "):\n");
            let ghost head = out@;
            for i in 0..n
                invariant
                    n == s.clients().len(),
                    out@ == head + client_lines(s.clients().take(i as int)),
            {
                match s.client_at(i) {
                    Some((addr, count)) => {
                        crate::text::push_chars(&mut out, "- ");
                        crate::text::push_chars(&mut out, addr.as_str());
                        crate::text::push_chars(&mut out, " (commands run: ");
                        crate::text::push_chars(&mut out, crate::numbers::u64_to_string(count as u64).as_str());
                        crate::text::push_chars(&mut out, ")\n");
                    },
                    None => {},
                }
                assert(s.clients().take(i + 1).drop_last() =~= s.clients().take(i as int));
                assert(out@ =~= head + client_lines(s.clients().take(i + 1)));
            }
            assert(s.clients().take(n as int) =~= s.clients());
            string_of(&out)
        },
    }
}

} // verus!
