//! The decisions of the console's own commands: how their words are grouped
//! into expressions, what a flag switch does, and what a command answers
//! given the results it waited for.

use vstd::prelude::*;
use crate::names::{is_valid_variable_name, valid_variable_name};
use crate::registry::{join_with_spaces, join_words};
use crate::expr::{split_at_char, split_chars};
use crate::text::{
    chars_equal, chars_of, contains, find_from, has_infix, has_prefix, lowercase, occurs_at, push_chars,
    sanitize_code, sanitize_spec, string_of, strip_prefix, to_lowercase, trim, trim_spec, views,
};

verus! {

/// `:delta`: the change of an expression's value since it was last evaluated.
pub struct DeltaArgs {
    /// The words of the expression.
    pub expression: Vec<String>,
    /// Answer the norm (magnitude) of the change.
    pub norm: bool,
    /// Divide the change by the seconds since the previous value.
    pub dt: bool,
}

/// What `:delta` answers with the value it just computed.
#[derive(Debug, Clone, Copy, PartialEq, Eq, Structural)]
pub enum DeltaPlan {
    /// No earlier value is known: the identity of the value's type (zero), so
    /// that the first answer is no spike; its norm with `norm`.
    Identity { norm: bool },
    /// The new value minus the earlier one, divided by the elapsed seconds
    /// with `per_second`; its norm with `norm`.
    Difference { per_second: bool, norm: bool },
}

impl DeltaArgs {
    /// The expression's text, the words joined by spaces: the key under which
    /// its earlier value is kept.
    pub fn cache_key(&self) -> (r: String)
        ensures
            r@ == join_words(views(self.expression@)),
    {
        join_with_spaces(&self.expression)
    }

    /// What to answer, given whether an earlier value of the expression is known.
    pub fn plan(&self, has_previous: bool) -> (r: DeltaPlan)
        ensures
            r == (if has_previous {
                DeltaPlan::Difference { per_second: self.dt, norm: self.norm }
            } else {
                DeltaPlan::Identity { norm: self.norm }
            }),
    {
        if has_previous {
            DeltaPlan::Difference { per_second: self.dt, norm: self.norm }
        } else {
            DeltaPlan::Identity { norm: self.norm }
        }
    }
}

/// The error of `:delta` on a value that is not a number: `kind_name` names its type.
pub fn delta_type_error(kind_name: &str) -> (r: String)
    ensures
        r@ == "`:delta` expected numeric type, instead got "@ + kind_name@,
{
    let mut out: Vec<char> = Vec::new();
    push_chars(&mut out, "`:delta` expected numeric type, instead got ");
    push_chars(&mut out, kind_name);
    string_of(&out)
}

/// The error of `--norm` on a value that has no norm: `kind_name` names its type.
pub fn norm_type_error(kind_name: &str) -> (r: String)
    ensures
        r@ == "the `--norm` flag can only be used with numeric types, Vector-like types, and Quat, not "@
            + kind_name@,
{
    let mut out: Vec<char> = Vec::new();
    push_chars(
        &mut out,
        "the `--norm` flag can only be used with numeric types, Vector-like types, and Quat, not ",
    );
    push_chars(&mut out, kind_name);
    string_of(&out)
}

/// A switch argument: a value to set (on or off), or toggle.
#[derive(Debug, Clone, Copy, PartialEq, Eq, Structural)]
pub enum BoolArg {
    Value(bool),
    Toggle,
}

/// The name by which a switch value is given, and its other spellings.
pub struct PossibleValue {
    pub name: String,
    pub aliases: Vec<String>,
}

impl BoolArg {
    /// The new value of a setting that was `current`.
    pub fn apply(&self, current: bool) -> (r: bool)
        ensures
            r == apply_spec(*self, current),
    {
        match self {
            BoolArg::Value(b) => *b,
            BoolArg::Toggle => !current,
        }
    }

    /// The values a switch takes, in the order they are listed.
    pub fn value_variants() -> (r: Vec<BoolArg>)
        ensures
            r@ == seq![BoolArg::Value(true), BoolArg::Value(false), BoolArg::Toggle],
    {
        let mut v: Vec<BoolArg> = Vec::new();
        v.push(BoolArg::Value(true));
        v.push(BoolArg::Value(false));
        v.push(BoolArg::Toggle);
        v
    }

    /// How the value is written: `1` (or `true`, `on`), `0` (or `false`,
    /// `off`), `toggle`.
    pub fn to_possible_value(&self) -> (r: PossibleValue)
        ensures
            r.name@ == match *self {
                BoolArg::Value(true) => "1"@,
                BoolArg::Value(false) => "0"@,
                BoolArg::Toggle => "toggle"@,
            },
            views(r.aliases@) == match *self {
                BoolArg::Value(true) => seq!["true"@, "on"@],
                BoolArg::Value(false) => seq!["false"@, "off"@],
                BoolArg::Toggle => Seq::<Seq<char>>::empty(),
            },
    {
        let mut aliases: Vec<String> = Vec::new();
        let name = match self {
            BoolArg::Value(true) => {
                aliases.push(String::from_str("true"));
                aliases.push(String::from_str("on"));
                String::from_str("1")
            },
            BoolArg::Value(false) => {
                aliases.push(String::from_str("false"));
                aliases.push(String::from_str("off"));
                String::from_str("0")
            },
            BoolArg::Toggle => String::from_str("toggle"),
        };
        proof {
            if *self == BoolArg::Toggle {
                assert(views(aliases@) =~= Seq::<Seq<char>>::empty());
            } else {
                assert(views(aliases@) =~= seq![aliases@[0]@, aliases@[1]@]);
            }
        }
        PossibleValue { name, aliases }
    }
}

/// Toggling twice gives back the value a setting had, and setting a value
/// twice is the same as setting it once.
pub proof fn lemma_bool_arg_laws(b: bool, v: bool)
    ensures
        toggle_then_toggle(b) == b,
        set_value(set_value(b, v), v) == set_value(b, v),
{
}

/// A setting after `Toggle`.
pub open spec fn toggle_then_toggle(b: bool) -> bool {
    apply_spec(BoolArg::Toggle, apply_spec(BoolArg::Toggle, b))
}

/// A setting after setting `v`.
pub open spec fn set_value(b: bool, v: bool) -> bool {
    apply_spec(BoolArg::Value(v), b)
}

/// The value of a setting that was `current` after the switch `arg`.
pub open spec fn apply_spec(arg: BoolArg, current: bool) -> bool {
    match arg {
        BoolArg::Value(b) => b,
        BoolArg::Toggle => !current,
    }
}

/// The words cut at every word equal to `sep`: one group more than there are
/// separators, groups possibly empty.
pub open spec fn split_tokens(words: Seq<Seq<char>>, sep: Seq<char>) -> Seq<Seq<Seq<char>>>
    decreases words.len(),
{
    if words.len() == 0 {
        seq![seq![]]
    } else {
        let p = split_tokens(words.drop_last(), sep);
        if words.last() == sep {
            p.push(seq![])
        } else {
            p.update(p.len() - 1, p.last().push(words.last()))
        }
    }
}

pub proof fn lemma_split_tokens_nonempty(words: Seq<Seq<char>>, sep: Seq<char>)
    ensures
        split_tokens(words, sep).len() > 0,
    decreases words.len(),
{
    if words.len() > 0 {
        lemma_split_tokens_nonempty(words.drop_last(), sep);
    }
}

/// The commands of `:seq` (separated by `|>`) or `:par` (by `<>`): the words
/// between separators joined by spaces, leaving out empty groups.
pub open spec fn command_groups(words: Seq<Seq<char>>, sep: Seq<char>) -> Seq<Seq<char>> {
    split_tokens(words, sep).filter(|g: Seq<Seq<char>>| g.len() > 0).map_values(
        |g: Seq<Seq<char>>| join_words(g),
    )
}

/// Splits the words of a combined command into its commands.
pub fn split_commands(words: &Vec<String>, sep: &str) -> (r: Vec<String>)
    ensures
        views(r@) == command_groups(views(words@), sep@),
{
    let ghost ws = views(words@);
    let sepv = chars_of(sep);
    let mut out: Vec<String> = Vec::new();
    let mut cur: Vec<char> = Vec::new();
    let mut cur_len: usize = 0;
    for k in 0..words.len()
        invariant
            ws == views(words@),
            sepv@ == sep@,
            split_tokens(ws.take(k as int), sep@).len() > 0,
            views(out@) == split_tokens(ws.take(k as int), sep@).drop_last().filter(
                |g: Seq<Seq<char>>| g.len() > 0,
            ).map_values(|g: Seq<Seq<char>>| join_words(g)),
            cur@ == join_words(split_tokens(ws.take(k as int), sep@).last()),
            cur_len == split_tokens(ws.take(k as int), sep@).last().len(),
            cur_len <= k,
    {
        let ghost parts = split_tokens(ws.take(k as int), sep@);
        let ghost before = out@;
        proof {
            assert(ws.take(k + 1).drop_last() =~= ws.take(k as int));
            assert(ws.take(k + 1).last() == words@[k as int]@);
            lemma_split_tokens_nonempty(ws.take(k + 1), sep@);
        }
        let w = chars_of(words[k].as_str());
        if chars_equal(&w, &sepv) {
            if cur_len > 0 {
                out.push(string_of(&cur));
            }
            proof {
                let next = split_tokens(ws.take(k + 1), sep@);
                assert(next =~= parts.push(seq![]));
                assert(next.drop_last() =~= parts);
                assert(parts =~= parts.drop_last().push(parts.last()));
                reveal_with_fuel(Seq::filter, 1);
                let f = |g: Seq<Seq<char>>| g.len() > 0;
                let m = |g: Seq<Seq<char>>| join_words(g);
                if cur_len > 0 {
                    assert(parts.filter(f) =~= parts.drop_last().filter(f).push(parts.last()));
                    assert(parts.drop_last().filter(f).push(parts.last()).map_values(m) =~= parts.drop_last().filter(
                        f,
                    ).map_values(m).push(join_words(parts.last())));
                    assert(views(out@) =~= views(before).push(cur@));
                } else {
                    assert(parts.filter(f) =~= parts.drop_last().filter(f));
                }
                assert(next.last() =~= Seq::<Seq<char>>::empty());
            }
            cur = Vec::new();
            cur_len = 0;
        } else {
            if cur_len > 0 {
                cur.push(' ');
            }
            push_chars(&mut cur, words[k].as_str());
            cur_len = cur_len + 1;
            proof {
                let next = split_tokens(ws.take(k + 1), sep@);
                let g = parts.last().push(ws[k as int]);
                assert(next =~= parts.update(parts.len() - 1, g));
                assert(next.drop_last() =~= parts.drop_last());
                assert(next.last() =~= g);
                assert(g.drop_last() =~= parts.last());
                assert(cur@ =~= join_words(g));
            }
        }
    }
    assert(ws.take(words.len() as int) =~= ws);
    let ghost parts = split_tokens(ws, sep@);
    let ghost before = out@;
    if cur_len > 0 {
        out.push(string_of(&cur));
    }
    proof {
        reveal_with_fuel(Seq::filter, 1);
        let f = |g: Seq<Seq<char>>| g.len() > 0;
        let m = |g: Seq<Seq<char>>| join_words(g);
        assert(parts =~= parts.drop_last().push(parts.last()));
        if cur_len > 0 {
            assert(parts.filter(f) =~= parts.drop_last().filter(f).push(parts.last()));
            assert(parts.drop_last().filter(f).push(parts.last()).map_values(m) =~= parts.drop_last().filter(
                f,
            ).map_values(m).push(join_words(parts.last())));
            assert(views(out@) =~= views(before).push(cur@));
        } else {
            assert(parts.filter(f) =~= parts.drop_last().filter(f));
        }
    }
    out
}

/// `i` is the first position of `sep` in the words.
pub open spec fn first_separator(words: Seq<Seq<char>>, sep: Seq<char>, i: int) -> bool {
    0 <= i < words.len() && words[i] == sep && forall|j: int| 0 <= j < i ==> words[j] != sep
}

/// The two expressions of `:select`: the condition and the body.
pub struct SelectPlan {
    pub condition: String,
    pub body: String,
}

/// Why a `:select` cannot run.
#[derive(Debug, Clone, PartialEq, Eq)]
pub enum SelectError {
    /// The words have no `=->`.
    MissingSeparator,
    /// The binding cannot name a console variable.
    InvalidBinding { binding: String },
}

impl SelectError {
    /// The error's message.
    pub fn message(&self) -> (r: String)
        ensures
            r@ == match self {
                SelectError::MissingSeparator => "expected exactly one =-> separator to separate condition from body"@,
                SelectError::InvalidBinding { binding } => "invalid binding name `"@ + binding@
                    + "`, must be alphanumeric, must not start with a digit, and cannot be a reserved keyword"@,
            },
    {
        match self {
            SelectError::MissingSeparator => String::from_str(
                "expected exactly one =-> separator to separate condition from body",
            ),
            SelectError::InvalidBinding { binding } => {
                let mut out: Vec<char> = Vec::new();
                push_chars(&mut out, "invalid binding name `");
                push_chars(&mut out, binding.as_str());
                push_chars(
                    &mut out,
                    "`, must be alphanumeric, must not start with a digit, and cannot be a reserved keyword",
                );
                string_of(&out)
            },
        }
    }
}

/// Prepares `:select binding condition =-> body`: the words before the first
/// `=->` are the condition, those after it the body (joined by spaces). Fails
/// when there is no `=->`, then when the binding is no valid variable name.
pub fn prepare_select(binding: &str, expression: &Vec<String>) -> (r: Result<SelectPlan, SelectError>)
    ensures
        !views(expression@).contains("=->"@) ==> r == Err::<SelectPlan, SelectError>(
            SelectError::MissingSeparator,
        ),
        views(expression@).contains("=->"@) && !valid_variable_name(binding@) ==> (r is Err && (r->Err_0 matches SelectError::InvalidBinding { binding: b } && b@ == binding@)),
        r is Ok ==> views(expression@).contains("=->"@) && valid_variable_name(binding@) && exists|i: int|
            first_separator(views(expression@), "=->"@, i) && r->Ok_0.condition@ == join_words(
                views(expression@).take(i),
            ) && r->Ok_0.body@ == join_words(views(expression@).skip(i + 1)),
        views(expression@).contains("=->"@) && valid_variable_name(binding@) ==> r is Ok,
{
    let ghost ws = views(expression@);
    let sepv = chars_of("=->");
    let mut found: Option<usize> = None;
    let mut k: usize = 0;
    while k < expression.len()
        invariant
            ws == views(expression@),
            sepv@ == "=->"@,
            k <= expression.len(),
            found is None ==> forall|j: int| 0 <= j < k ==> ws[j] != "=->"@,
            found is Some ==> first_separator(ws, "=->"@, found->0 as int),
        decreases expression.len() - k,
    {
        if found.is_none() {
            let w = chars_of(expression[k].as_str());
            if chars_equal(&w, &sepv) {
                found = Some(k);
            }
        }
        k += 1;
    }
    match found {
        None => {
            proof {
                if ws.contains("=->"@) {
                    let j = choose|j: int| 0 <= j < ws.len() && ws[j] == "=->"@;
                    assert(ws[j] != "=->"@);
                }
            }
            Err(SelectError::MissingSeparator)
        },
        Some(i) => {
            assert(ws.contains("=->"@)) by {
                assert(ws[i as int] == "=->"@);
            }
            if !is_valid_variable_name(binding) {
                return Err(SelectError::InvalidBinding { binding: String::from_str(binding) });
            }
            let mut before: Vec<String> = Vec::new();
            let mut after: Vec<String> = Vec::new();
            for j in 0..i
                invariant
                    i < expression.len(),
                    views(before@) == views(expression@).take(j as int),
            {
                let ghost b = before@;
                before.push(expression[j].clone());
                assert(views(before@) =~= views(b).push(expression@[j as int]@));
                assert(views(expression@).take(j + 1) =~= views(expression@).take(j as int).push(
                    expression@[j as int]@,
                ));
                assert(views(before@) =~= views(expression@).take(j + 1));
            }
            for j in i + 1..expression.len()
                invariant
                    i < expression.len(),
                    i + 1 <= j <= expression.len(),
                    views(after@) == views(expression@).subrange(i + 1, j as int),
            {
                let ghost b = after@;
                after.push(expression[j].clone());
                assert(views(after@) =~= views(b).push(expression@[j as int]@));
                assert(views(after@) =~= views(expression@).subrange(i + 1, j + 1));
            }
            assert(views(expression@).subrange(i + 1, expression.len() as int) =~= views(expression@).skip(
                i + 1,
            ));
            let plan = SelectPlan { condition: join_with_spaces(&before), body: join_with_spaces(&after) };
            assert(first_separator(ws, "=->"@, i as int));
            Ok(plan)
        },
    }
}

/// The run of `:seq`: its commands one after the other, stopping at the first
/// failure unless errors are ignored.
pub struct SeqRun<T, E> {
    ignore_errors: bool,
    last: Option<Result<T, E>>,
}

impl<T, E> SeqRun<T, E> {
    /// Errors are ignored.
    pub closed spec fn ignores_errors(self) -> bool {
        self.ignore_errors
    }

    /// The result of the command that ran last.
    pub closed spec fn last_result(self) -> Option<Result<T, E>> {
        self.last
    }

    /// A run in which no command has run yet.
    pub fn new(ignore_errors: bool) -> (r: Self)
        ensures
            r.ignores_errors() == ignore_errors,
            r.last_result() is None,
    {
        SeqRun { ignore_errors, last: None }
    }

    /// Takes the result of the command that ran; answers whether the next
    /// one runs: not after a failure, unless errors are ignored.
    pub fn record(&mut self, result: Result<T, E>) -> (go_on: bool)
        ensures
            go_on == (result is Ok || old(self).ignores_errors()),
            final(self).ignores_errors() == old(self).ignores_errors(),
            final(self).last_result() == Some(result),
    {
        let go_on = self.ignore_errors || result.is_ok();
        self.last = Some(result);
        go_on
    }

    /// The answer of `:seq`: the result of the command that ran last, nothing
    /// when none ran.
    pub fn finish(self) -> (r: Result<Option<T>, E>)
        ensures
            match self.last_result() {
                None => r == Ok::<Option<T>, E>(None),
                Some(Ok(v)) => r == Ok::<Option<T>, E>(Some(v)),
                Some(Err(e)) => r == Err::<Option<T>, E>(e),
            },
    {
        match self.last {
            None => Ok(None),
            Some(Ok(v)) => Ok(Some(v)),
            Some(Err(e)) => Err(e),
        }
    }
}

/// The run of `:for`: its expressions one after the other, collecting their
/// values, stopping at the first failure.
pub struct ForRun<T, E> {
    values: Vec<T>,
    failure: Option<E>,
}

impl<T, E> ForRun<T, E> {
    /// The values of the expressions that ran, in order.
    pub closed spec fn collected(self) -> Seq<T> {
        self.values@
    }

    /// The failure that stopped the run, if one did.
    pub closed spec fn failed(self) -> Option<E> {
        self.failure
    }

    /// A run in which no expression has run yet.
    pub fn new() -> (r: Self)
        ensures
            r.collected().len() == 0,
            r.failed() is None,
    {
        ForRun { values: Vec::new(), failure: None }
    }

    /// Takes the result of the expression that ran; answers whether the next
    /// one runs: not after a failure. Once stopped, the run keeps its failure.
    pub fn record(&mut self, result: Result<T, E>) -> (go_on: bool)
        ensures
            old(self).failed() is Some ==> !go_on && final(self).collected() == old(self).collected()
                && final(self).failed() == old(self).failed(),
            old(self).failed() is None ==> match result {
                Ok(v) => go_on && final(self).collected() == old(self).collected().push(v)
                    && final(self).failed() is None,
                Err(e) => !go_on && final(self).collected() == old(self).collected()
                    && final(self).failed() == Some(e),
            },
    {
        if self.failure.is_some() {
            return false;
        }
        match result {
            Ok(v) => {
                self.values.push(v);
                true
            },
            Err(e) => {
                self.failure = Some(e);
                false
            },
        }
    }

    /// The answer of `:for`: the values of all its expressions in order, or the
    /// failure that stopped it.
    pub fn finish(self) -> (r: Result<Vec<T>, E>)
        ensures
            match self.failed() {
                None => r is Ok && r->Ok_0@ == self.collected(),
                Some(e) => r == Err::<Vec<T>, E>(e),
            },
    {
        match self.failure {
            None => Ok(self.values),
            Some(e) => Err(e),
        }
    }
}

/// All results are values.
pub open spec fn all_ok<T, E>(rs: Seq<Result<T, E>>) -> bool {
    forall|i: int| 0 <= i < rs.len() ==> #[trigger] rs[i] is Ok
}

/// The answer of `:par`: the values of all its commands in order, or the first
/// error among them.
pub fn collect_results<T, E>(results: Vec<Result<T, E>>) -> (r: Result<Vec<T>, E>)
    ensures
        r is Ok <==> all_ok(results@),
        r is Ok ==> r->Ok_0@ == results@.map_values(|x: Result<T, E>| x->Ok_0),
        r is Err ==> exists|i: int|
            0 <= i < results@.len() && results@[i] == Err::<T, E>(r->Err_0) && all_ok(results@.take(i)),
{
    let ghost input = results@;
    let mut values: Vec<T> = Vec::new();
    let mut rest = results;
    let ghost n = input.len();
    while rest.len() > 0
        invariant
            input == results@,
            n == input.len(),
            values@.len() + rest@.len() == n,
            all_ok(input.take(values@.len() as int)),
            values@ == input.take(values@.len() as int).map_values(|x: Result<T, E>| x->Ok_0),
            rest@ == input.skip(values@.len() as int),
        decreases rest.len(),
    {
        let k = values.len();
        let x = rest.remove(0);
        assert(x == input[k as int]);
        assert(rest@ =~= input.skip(k + 1));
        match x {
            Ok(v) => {
                values.push(v);
                assert(input.take(k + 1) =~= input.take(k as int).push(input[k as int]));
                assert(values@ =~= input.take(k + 1).map_values(|x: Result<T, E>| x->Ok_0));
            },
            Err(e) => {
                proof {
                    assert(input[k as int] == Err::<T, E>(e));
                    assert(!(input[k as int] is Ok));
                    assert(!all_ok(input));
                    assert(all_ok(input.take(k as int)));
                }
                return Err(e);
            },
        }
    }
    assert(input.take(n as int) =~= input);
    Ok(values)
}

/// What `:res find` answers.
pub enum ResourceFind {
    /// The matching resource paths, one per line (only the first without `all`).
    Listing(String),
    /// The path of the first match, to be loaded.
    Load(String),
}

/// The resources whose path contains the needle, ignoring case; all of them
/// for an empty needle.
pub open spec fn matching_resources(resources: Seq<Seq<char>>, needle: Seq<Seq<char>>) -> Seq<Seq<char>> {
    resources.filter(
        |r: Seq<char>|
            needle.len() == 0 || has_infix(lowercase(r), lowercase(join_words(needle))),
    )
}

/// The lines joined by line breaks.
pub open spec fn join_lines_spec(lines: Seq<Seq<char>>) -> Seq<char>
    decreases lines.len(),
{
    if lines.len() == 0 {
        seq![]
    } else if lines.len() == 1 {
        lines[0]
    } else {
        join_lines_spec(lines.drop_last()) + seq!['\n'] + lines.last()
    }
}

/// The needle lower-cased: none when it has no words.
pub open spec fn needle_lowercase(needle: Seq<Seq<char>>) -> Option<Seq<char>> {
    if needle.len() == 0 {
        None
    } else {
        Some(lowercase(join_words(needle)))
    }
}

/// The entries (a path with its lower-cased path) whose lower-cased path
/// contains the lower-cased needle; all of them without a needle.
pub open spec fn matching_entries(entries: Seq<(String, Seq<char>)>, needle_lower: Option<Seq<char>>) -> Seq<
    (String, Seq<char>),
> {
    entries.filter(
        |e: (String, Seq<char>)|
            match needle_lower {
                Some(nl) => has_infix(e.1, nl),
                None => true,
            },
    )
}

/// The paths of the matching entries, in order.
pub open spec fn matching_resources_lowered(
    entries: Seq<(String, Seq<char>)>,
    needle_lower: Option<Seq<char>>,
) -> Seq<Seq<char>> {
    matching_entries(entries, needle_lower).map_values(|e: (String, Seq<char>)| e.0@)
}

/// The view of an optional text.
pub open spec fn option_view(o: Option<&str>) -> Option<Seq<char>> {
    match o {
        Some(s) => Some(s@),
        None => None,
    }
}

/// What `:res find` answers for the resources `m` that match.
pub open spec fn find_answer(m: Seq<Seq<char>>, all: bool, load: bool, r: Result<ResourceFind, String>) -> bool {
    if load {
        if m.len() == 0 {
            r is Err && r->Err_0@ == "No resource found that matches given needle"@
        } else {
            r is Ok && (r->Ok_0 matches ResourceFind::Load(p) && p@ == m[0])
        }
    } else {
        r is Ok && (r->Ok_0 matches ResourceFind::Listing(t) && t@ == join_lines_spec(
            if all {
                m
            } else {
                m.take(if m.len() > 0 { 1int } else { 0int })
            },
        ))
    }
}

/// `:res find`, given each resource with its lower-cased path and the
/// lower-cased needle (none without a needle): the resources that match. With
/// `load`, the first match is to be loaded (and finding none is an error);
/// otherwise the listing of the matches, only the first of them unless `all`.
pub fn find_resources_lowered(
    entries: &Vec<(String, String)>,
    needle_lower: Option<&str>,
    all: bool,
    load: bool,
) -> (r: Result<ResourceFind, String>)
    ensures
        find_answer(
            matching_resources_lowered(crate::autocomplete::lowered_view(entries@), option_view(needle_lower)),
            all,
            load,
            r,
        ),
{
    let ghost input = crate::autocomplete::lowered_view(entries@);
    let ghost nl = option_view(needle_lower);
    let needle: Option<Vec<char>> = match needle_lower {
        Some(t) => Some(chars_of(t)),
        None => None,
    };
    let mut list: Vec<String> = Vec::new();
    for k in 0..entries.len()
        invariant
            input == crate::autocomplete::lowered_view(entries@),
            nl == option_view(needle_lower),
            match needle {
                Some(v) => nl == Some(v@),
                None => nl is None,
            },
            views(list@) == matching_resources_lowered(input.take(k as int), nl),
    {
        let ghost e = input[k as int];
        proof {
            assert(input.take(k + 1).drop_last() =~= input.take(k as int));
            assert(input.take(k + 1).last() == e);
            reveal_with_fuel(Seq::filter, 1);
        }
        let keep = match &needle {
            Some(v) => {
                let lower = chars_of(entries[k].1.as_str());
                contains(&lower, v)
            },
            None => true,
        };
        let ghost before = list@;
        let ghost kept = matching_entries(input.take(k as int), nl);
        if keep {
            list.push(entries[k].0.clone());
            assert(matching_entries(input.take(k + 1), nl) == kept.push(e));
            assert(kept.push(e).map_values(|e: (String, Seq<char>)| e.0@) =~= kept.map_values(
                |e: (String, Seq<char>)| e.0@,
            ).push(e.0@));
            assert(views(list@) =~= views(before).push(entries@[k as int].0@));
        } else {
            assert(matching_entries(input.take(k + 1), nl) == kept);
        }
    }
    assert(input.take(entries.len() as int) =~= input);
    if load {
        if list.len() == 0 {
            return Err(String::from_str("No resource found that matches given needle"));
        }
        let first = list[0].clone();
        return Ok(ResourceFind::Load(first));
    }
    let count = if all || list.len() == 0 {
        list.len()
    } else {
        1
    };
    let mut text: Vec<char> = Vec::new();
    for k in 0..count
        invariant
            count <= list.len(),
            text@ == join_lines_spec(views(list@).take(k as int)),
    {
        if k > 0 {
            text.push('\n');
        }
        push_chars(&mut text, list[k].as_str());
        assert(views(list@).take(k + 1).drop_last() =~= views(list@).take(k as int));
    }
    assert(views(list@).take(list.len() as int) =~= views(list@));
    Ok(ResourceFind::Listing(string_of(&text)))
}

proof fn lemma_matching_resources_lowered(rs: Seq<String>, needle: Seq<Seq<char>>)
    ensures
        matching_resources(views(rs), needle) == matching_resources_lowered(
            crate::autocomplete::with_lowercase(rs),
            needle_lowercase(needle),
        ),
    decreases rs.len(),
{
    reveal_with_fuel(Seq::filter, 1);
    let wl = crate::autocomplete::with_lowercase(rs);
    let nl = needle_lowercase(needle);
    if rs.len() > 0 {
        let d = rs.drop_last();
        lemma_matching_resources_lowered(d, needle);
        assert(views(rs).drop_last() =~= views(d));
        assert(wl.drop_last() =~= crate::autocomplete::with_lowercase(d));
        let kept = matching_entries(crate::autocomplete::with_lowercase(d), nl);
        let e = wl.last();
        assert(e == (rs.last(), lowercase(rs.last()@)));
        assert(kept.push(e).map_values(|e: (String, Seq<char>)| e.0@) =~= kept.map_values(
            |e: (String, Seq<char>)| e.0@,
        ).push(e.0@));
    } else {
        assert(matching_resources(views(rs), needle) =~= matching_resources_lowered(wl, nl));
    }
}

/// `:res find needle`: the resources that match. With `load`, the first match
/// is to be loaded (and finding none is an error); otherwise the listing of the
/// matches, only the first of them unless `all`.
pub fn find_resources(resources: &Vec<String>, needle: &Vec<String>, all: bool, load: bool) -> (r: Result<
    ResourceFind,
    String,
>)
    ensures
        find_answer(matching_resources(views(resources@), views(needle@)), all, load, r),
{
    let entries = crate::autocomplete::pair_with_lowercase(resources);
    proof {
        lemma_matching_resources_lowered(resources@, views(needle@));
    }
    if needle.len() > 0 {
        let needle_text = join_with_spaces(needle);
        let needle_lower = to_lowercase(needle_text.as_str());
        find_resources_lowered(&entries, Some(needle_lower.as_str()), all, load)
    } else {
        find_resources_lowered(&entries, None, all, load)
    }
}

/// The commands of a script file: its lines without surrounding whitespace,
/// leaving out empty lines and comments (lines starting with `#`).
pub open spec fn script_commands(lines: Seq<Seq<char>>) -> Seq<Seq<char>> {
    lines.map_values(|l: Seq<char>| trim_spec(l)).filter(|l: Seq<char>| l.len() > 0 && l[0] != '#')
}

/// The commands that `:eval-file` runs, in order, from the lines of the file.
pub fn file_commands(lines: &Vec<String>) -> (r: Vec<String>)
    ensures
        views(r@) == script_commands(views(lines@)),
{
    let ghost ls = views(lines@);
    let ghost tr = ls.map_values(|l: Seq<char>| trim_spec(l));
    let mut out: Vec<String> = Vec::new();
    for k in 0..lines.len()
        invariant
            ls == views(lines@),
            tr == ls.map_values(|l: Seq<char>| trim_spec(l)),
            views(out@) == tr.take(k as int).filter(|l: Seq<char>| l.len() > 0 && l[0] != '#'),
    {
        let t = trim(lines[k].as_str());
        let tv = chars_of(t.as_str());
        proof {
            assert(tr.take(k + 1).drop_last() =~= tr.take(k as int));
            assert(tr.take(k + 1).last() == tv@);
            reveal_with_fuel(Seq::filter, 1);
        }
        let ghost before = out@;
        if tv.len() > 0 && tv[0] != '#' {
            out.push(t);
            assert(views(out@) =~= views(before).push(tv@));
        }
    }
    assert(tr.take(lines.len() as int) =~= tr);
    out
}

/// The answer of `:eval-file` after it ran the file: `count` is the number of
/// lines the file has.
pub fn eval_file_summary(count: u64, path: &str) -> (r: String)
    ensures
        r@ == "Evaluated "@ + crate::numbers::digits(count as nat) + " commands from file `"@ + path@ + "`."@,
{
    let mut out: Vec<char> = Vec::new();
    push_chars(&mut out, "Evaluated ");
    let n = crate::numbers::u64_to_string(count);
    push_chars(&mut out, n.as_str());
    push_chars(&mut out, " commands from file `");
    push_chars(&mut out, path);
    push_chars(&mut out, "`.");
    string_of(&out)
}

/// Which evaluator an expression goes to.
pub enum ExpressionRoute {
    /// A console command: the text after the leading `:`.
    Command(String),
    /// GDScript: the whole text.
    GdScript(String),
}

/// Routes an expression after cleaning it (tabs become spaces, other control
/// characters are removed): to the console's commands when it starts with `:`,
/// to GDScript otherwise.
pub fn route_expression(code: &str) -> (r: ExpressionRoute)
    ensures
        ({
            let c = sanitize_spec(code@);
            if has_prefix(c, seq![':']) {
                r matches ExpressionRoute::Command(rest) && rest@ == c.skip(1)
            } else {
                r matches ExpressionRoute::GdScript(g) && g@ == c
            }
        }),
{
    let clean = sanitize_code(code);
    proof {
        reveal_strlit(":");
        assert(":"@ =~= seq![':']);
    }
    match strip_prefix(clean.as_str(), ":") {
        Some(rest) => ExpressionRoute::Command(rest),
        None => ExpressionRoute::GdScript(clean),
    }
}

/// Where a position argument points: `@cursor`, `@cam`, `@` followed by a
/// node pattern, or coordinates (`x,y` or `x,y,z`) still to be read.
#[derive(Debug, Clone, PartialEq, Eq)]
pub enum PositionSpec {
    Cursor,
    Camera,
    Node(String),
    Coordinates(String),
}

/// Reads a position argument. An `@` with nothing after it is an error.
pub fn parse_position(s: &str) -> (r: Result<PositionSpec, String>)
    ensures
        has_prefix(s@, seq!['@']) ==> ({
            let p = s@.skip(1);
            if p == "cursor"@ {
                r == Ok::<PositionSpec, String>(PositionSpec::Cursor)
            } else if p == "cam"@ {
                r == Ok::<PositionSpec, String>(PositionSpec::Camera)
            } else if p.len() > 0 {
                r is Ok && (r->Ok_0 matches PositionSpec::Node(n) && n@ == p)
            } else {
                r is Err && r->Err_0@ == "node pattern cannot be empty"@
            }
        }),
        !has_prefix(s@, seq!['@']) ==> (r is Ok && (r->Ok_0 matches PositionSpec::Coordinates(c) && c@ == s@)),
{
    proof {
        reveal_strlit("@");
        assert("@"@ =~= seq!['@']);
    }
    match strip_prefix(s, "@") {
        Some(pattern) => {
            let p = chars_of(pattern.as_str());
            let cursor = chars_of("cursor");
            let cam = chars_of("cam");
            if chars_equal(&p, &cursor) {
                Ok(PositionSpec::Cursor)
            } else if chars_equal(&p, &cam) {
                Ok(PositionSpec::Camera)
            } else if p.len() > 0 {
                Ok(PositionSpec::Node(pattern))
            } else {
                Err(String::from_str("node pattern cannot be empty"))
            }
        },
        None => Ok(PositionSpec::Coordinates(String::from_str(s))),
    }
}

/// How coordinates of `dims` components are written, for messages.
pub open spec fn coordinates_form(dims: usize) -> Seq<char> {
    if dims == 2 {
        "x,y"@
    } else {
        "x,y,z"@
    }
}

/// Cuts coordinates at their commas: exactly `dims` pieces (2 or 3), not yet
/// trimmed or read as numbers.
pub fn split_coordinates(s: &str, dims: usize) -> (r: Result<Vec<String>, String>)
    requires
        dims == 2 || dims == 3,
    ensures
        split_at_char(s@, ',').len() == dims ==> (r is Ok && views(r->Ok_0@) == split_at_char(s@, ',')),
        split_at_char(s@, ',').len() != dims ==> (r is Err && r->Err_0@ == "expected '"@ + coordinates_form(
            dims,
        ) + "' but got '"@ + s@ + "'"@),
{
    let pieces = split_chars(&chars_of(s), ',');
    if pieces.len() != dims {
        let mut out: Vec<char> = Vec::new();
        push_chars(&mut out, "expected '");
        if dims == 2 {
            push_chars(&mut out, "x,y");
        } else {
            push_chars(&mut out, "x,y,z");
        }
        push_chars(&mut out, "' but got '");
        push_chars(&mut out, s);
        push_chars(&mut out, "'");
        return Err(string_of(&out));
    }
    let mut parts: Vec<String> = Vec::new();
    for k in 0..pieces.len()
        invariant
            views(parts@) == pieces@.map_values(|p: Vec<char>| p@).take(k as int),
    {
        let ghost before = parts@;
        parts.push(string_of(&pieces[k]));
        assert(views(parts@) =~= views(before).push(pieces@[k as int]@));
        assert(pieces@.map_values(|p: Vec<char>| p@).take(k + 1) =~= pieces@.map_values(|p: Vec<char>| p@).take(
            k as int,
        ).push(pieces@[k as int]@));
    }
    assert(pieces@.map_values(|p: Vec<char>| p@).take(pieces.len() as int) =~= pieces@.map_values(
        |p: Vec<char>| p@,
    ));
    Ok(parts)
}

/// Cuts a range `START..END` at its first `..`; the bounds are not yet read as
/// numbers. Text without `..` is an error.
pub fn split_range(s: &str) -> (r: Result<(String, String), String>)
    ensures
        !has_infix(s@, ".."@) ==> (r is Err && r->Err_0@ == "invalid range `"@ + s@
            + "`, expected format START..END"@),
        has_infix(s@, ".."@) ==> (r is Ok && exists|i: int|
            occurs_at(s@, ".."@, i) && (forall|j: int| 0 <= j < i ==> !occurs_at(s@, ".."@, j))
                && r->Ok_0.0@ == s@.take(i) && r->Ok_0.1@ == s@.skip(i + 2)),
{
    proof {
        reveal_strlit("..");
        assert(".."@.len() == 2);
    }
    let v = chars_of(s);
    let dots = chars_of("..");
    match find_from(&v, &dots, 0) {
        None => {
            let mut out: Vec<char> = Vec::new();
            push_chars(&mut out, "invalid range `");
            push_chars(&mut out, s);
            push_chars(&mut out, "`, expected format START..END");
            Err(string_of(&out))
        },
        Some(i) => {
            let mut start: Vec<char> = Vec::new();
            let mut end: Vec<char> = Vec::new();
            for k in 0..i
                invariant
                    i + 2 <= v.len(),
                    start@ == v@.take(k as int),
            {
                start.push(v[k]);
                assert(v@.take(k + 1) =~= v@.take(k as int).push(v@[k as int]));
            }
            for k in i + 2..v.len()
                invariant
                    i + 2 <= k <= v.len(),
                    end@ == v@.subrange(i + 2, k as int),
            {
                end.push(v[k]);
                assert(end@ =~= v@.subrange(i + 2, k + 1));
            }
            assert(v@.subrange(i + 2, v.len() as int) =~= v@.skip(i + 2));
            Ok((string_of(&start), string_of(&end)))
        },
    }
}

/// Two decimal digits of `n` (below 100), with a leading zero.
pub open spec fn two_digits(n: u8) -> Seq<char> {
    seq![((48 + n / 10) as char), ((48 + n % 10) as char)]
}

/// The clock time `HH:MM:SS`.
pub open spec fn clock_text_spec(hour: u8, minute: u8, second: u8) -> Seq<char> {
    two_digits(hour) + seq![':'] + two_digits(minute) + seq![':'] + two_digits(second)
}

fn push_two_digits(out: &mut Vec<char>, n: u8)
    requires
        n < 100,
    ensures
        final(out)@ == old(out)@ + two_digits(n),
{
    let hi = (48 + n / 10) as char;
    let lo = (48 + n % 10) as char;
    out.push(hi);
    out.push(lo);
    assert(final(out)@ =~= old(out)@ + two_digits(n));
}

/// What goes in front of a line of output when timestamps are on: the local
/// clock time in brackets, `[HH:MM:SS] `; nothing when they are off.
pub fn timestamp_prefix(enabled: bool, hour: u8, minute: u8, second: u8) -> (r: Option<String>)
    requires
        hour < 24,
        minute < 60,
        second < 60,
    ensures
        enabled ==> r is Some && r->0@ == seq!['['] + clock_text_spec(hour, minute, second) + seq![']', ' '],
        !enabled ==> r is None,
{
    if !enabled {
        return None;
    }
    let mut out: Vec<char> = Vec::new();
    out.push('[');
    push_two_digits(&mut out, hour);
    out.push(':');
    push_two_digits(&mut out, minute);
    out.push(':');
    push_two_digits(&mut out, second);
    out.push(']');
    out.push(' ');
    assert(out@ =~= seq!['['] + clock_text_spec(hour, minute, second) + seq![']', ' ']);
    Some(string_of(&out))
}

/// A callable custom command takes the command's words as arguments; it needs
/// at least as many as the callable expects (extra ones are ignored).
pub fn check_callable_args(expected: u64, got: u64) -> (r: Result<(), String>)
    ensures
        r is Ok <==> got >= expected,
        r is Err ==> r->Err_0@ == "Callable expected at least "@ + crate::numbers::decimal(expected as int)
            + " arguments, but got only "@ + crate::numbers::decimal(got as int),
{
    if got < expected {
        let mut out: Vec<char> = Vec::new();
        push_chars(&mut out, "Callable expected at least ");
        push_chars(&mut out, crate::numbers::u64_to_string(expected).as_str());
        push_chars(&mut out, " arguments, but got only ");
        push_chars(&mut out, crate::numbers::u64_to_string(got).as_str());
        return Err(string_of(&out));
    }
    Ok(())
}

/// `:set name ...` stores a console variable only under a valid variable name.
pub fn check_variable_name(name: &str) -> (r: Result<(), String>)
    ensures
        r is Ok <==> valid_variable_name(name@),
        r is Err ==> r->Err_0@ == "invalid variable name `"@ + name@
            + "`, must be alphanumeric, must not start with a digit, and cannot be a reserved keyword"@,
{
    if is_valid_variable_name(name) {
        return Ok(());
    }
    let mut out: Vec<char> = Vec::new();
    push_chars(&mut out, "invalid variable name `");
    push_chars(&mut out, name);
    push_chars(&mut out, "`, must be alphanumeric, must not start with a digit, and cannot be a reserved keyword");
    Err(string_of(&out))
}

/// The neighbouring pairs of a list of points, in order, for drawing the
/// lines between them; fewer than two points is an error.
pub fn adjacent_pairs<T: Copy>(items: &Vec<T>) -> (r: Result<Vec<(T, T)>, String>)
    ensures
        items@.len() < 2 ==> (r is Err && r->Err_0@ == "expected array of at least 2 elements, but got "@
            + crate::numbers::decimal(items@.len() as int) + " instead"@),
        items@.len() >= 2 ==> (r is Ok && r->Ok_0@.len() == items@.len() - 1 && forall|k: int|
            0 <= k < r->Ok_0@.len() ==> #[trigger] r->Ok_0@[k] == (items@[k], items@[k + 1])),
{
    let n = items.len();
    if n < 2 {
        let mut out: Vec<char> = Vec::new();
        push_chars(&mut out, "expected array of at least 2 elements, but got ");
        push_chars(&mut out, crate::numbers::u64_to_string(n as u64).as_str());
        push_chars(&mut out, " instead");
        return Err(string_of(&out));
    }
    let mut pairs: Vec<(T, T)> = Vec::new();
    for k in 0..n - 1
        invariant
            n == items@.len(),
            n >= 2,
            pairs@.len() == k,
            forall|j: int| 0 <= j < k ==> #[trigger] pairs@[j] == (items@[j], items@[j + 1]),
    {
        pairs.push((items[k], items[k + 1]));
    }
    Ok(pairs)
}

} // verus!
