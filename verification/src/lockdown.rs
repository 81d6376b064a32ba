//! Lockdown mode: once entered, GDScript can no longer run and commands marked
//! risky are refused; it cannot be left again.

use vstd::prelude::*;
use crate::autocomplete::{gdscript_candidates, rank_gdscript_slots, AutocompleteSlot};
use crate::expr::join_sep;
use crate::sorting::{stable_sort, KeyView};
use crate::text::{push_chars, string_of};

verus! {

/// Whether lockdown mode has been entered.
pub struct LockdownState {
    enabled: bool,
}

impl LockdownState {
    /// Lockdown mode has been entered.
    pub closed spec fn enabled(self) -> bool {
        self.enabled
    }

    /// The state before lockdown mode is entered.
    pub fn new() -> (r: LockdownState)
        ensures
            !r.enabled(),
    {
        LockdownState { enabled: false }
    }
}

/// Whether lockdown mode is enabled.
pub fn is_lockdown_enabled(state: &LockdownState) -> (r: bool)
    ensures
        r == state.enabled(),
{
    state.enabled
}

/// Why lockdown mode could not be entered.
#[derive(Debug, Clone, Copy, PartialEq, Eq)]
pub enum LockdownError {
    AlreadyEnabled,
}

impl LockdownError {
    /// The error's message.
    pub fn message(&self) -> (r: String)
        ensures
            r@ == "lockdown mode was already enabled"@,
    {
        String::from_str("lockdown mode was already enabled")
    }
}

/// Enters lockdown mode. Fails when it was entered already; either way it is
/// entered afterwards, and nothing leaves it.
pub fn enable_lockdown(state: &mut LockdownState) -> (r: Result<(), LockdownError>)
    ensures
        final(state).enabled(),
        r is Ok <==> !old(state).enabled(),
{
    if state.enabled {
        Err(LockdownError::AlreadyEnabled)
    } else {
        state.enabled = true;
        Ok(())
    }
}

/// The `lockdown` call of the console: enters lockdown mode and answers
/// `Lockdown mode enabled.`, or fails when it was entered already.
pub fn lockdown(state: &mut LockdownState) -> (r: Result<&'static str, LockdownError>)
    ensures
        final(state).enabled(),
        r is Ok <==> !old(state).enabled(),
        r is Ok ==> r->Ok_0@ == "Lockdown mode enabled."@,
        r is Err ==> r->Err_0 == LockdownError::AlreadyEnabled,
{
    match enable_lockdown(state) {
        Ok(()) => Ok("Lockdown mode enabled."),
        Err(e) => Err(e),
    }
}

/// A command on the way from the root command down to the one that runs, and
/// whether it carries the marker looked for.
pub struct CommandLink {
    pub name: String,
    pub marked: bool,
}

/// Some command of the chain carries the marker.
pub open spec fn chain_marked(chain: Seq<CommandLink>) -> bool {
    exists|i: int| 0 <= i < chain.len() && #[trigger] chain[i].marked
}

/// The names of the chain, from the root down.
pub open spec fn chain_names(chain: Seq<CommandLink>) -> Seq<Seq<char>> {
    chain.map_values(|l: CommandLink| l.name@)
}

/// Whether a command of the chain carries the marker, and the names of the
/// chain separated by spaces (the full command).
pub fn check_marker(chain: &Vec<CommandLink>) -> (r: (bool, String))
    ensures
        r.0 == chain_marked(chain@),
        r.1@ == join_sep(chain_names(chain@), seq![' ']),
{
    let mut marked = false;
    let mut names: Vec<char> = Vec::new();
    for k in 0..chain.len()
        invariant
            marked == chain_marked(chain@.take(k as int)),
            names@ == join_sep(chain_names(chain@.take(k as int)), seq![' ']),
    {
        let ghost before = names@;
        if k > 0 {
            names.push(' ');
        }
        push_chars(&mut names, chain[k].name.as_str());
        proof {
            let t = chain_names(chain@.take(k + 1));
            assert(chain@.take(k + 1).drop_last() =~= chain@.take(k as int));
            assert(t.drop_last() =~= chain_names(chain@.take(k as int)));
            assert(t.last() == chain@[k as int].name@);
            assert(names@ =~= join_sep(t, seq![' ']));
        }
        if chain[k].marked {
            marked = true;
            assert(chain@.take(k + 1)[k as int].marked);
        }
        proof {
            if chain_marked(chain@.take(k + 1)) && !chain[k as int].marked {
                let i = choose|i: int| 0 <= i < k + 1 && #[trigger] chain@.take(k + 1)[i].marked;
                assert(chain@.take(k as int)[i].marked);
            }
            if chain_marked(chain@.take(k as int)) {
                let i = choose|i: int| 0 <= i < k && #[trigger] chain@.take(k as int)[i].marked;
                assert(chain@.take(k + 1)[i].marked);
            }
        }
    }
    assert(chain@.take(chain.len() as int) =~= chain@);
    (marked, string_of(&names))
}

/// What lockdown mode refused to run.
#[derive(Debug, Clone, PartialEq, Eq)]
pub enum LockdownRefusal {
    GdScript,
    RiskyCommand { risky_cmd: String },
}

impl LockdownRefusal {
    /// The message shown for the refusal.
    pub fn message(&self) -> (r: String)
        ensures
            r@ == (match self {
                LockdownRefusal::GdScript => "GDScript execution disallowed, since lockdown mode is enabled"@,
                LockdownRefusal::RiskyCommand { risky_cmd } => "Running risky command `"@ + risky_cmd@
                    + "` is disallowed, since lockdown mode is enabled"@,
            }),
    {
        match self {
            LockdownRefusal::GdScript => String::from_str(
                "GDScript execution disallowed, since lockdown mode is enabled",
            ),
            LockdownRefusal::RiskyCommand { risky_cmd } => {
                let mut out: Vec<char> = Vec::new();
                push_chars(&mut out, "Running risky command `");
                push_chars(&mut out, risky_cmd.as_str());
                push_chars(&mut out, "` is disallowed, since lockdown mode is enabled");
                string_of(&out)
            },
        }
    }
}

/// GDScript may run unless lockdown mode is enabled.
pub fn check_gdscript_allowed(state: &LockdownState) -> (r: Result<(), LockdownRefusal>)
    ensures
        r is Ok <==> !state.enabled(),
        r is Err ==> r->Err_0 == LockdownRefusal::GdScript,
{
    if is_lockdown_enabled(state) {
        Err(LockdownRefusal::GdScript)
    } else {
        Ok(())
    }
}

/// A command given by its chain from the root may run unless lockdown mode is
/// enabled and a command of the chain is marked risky; the refusal names the
/// full command.
pub fn check_command_allowed(state: &LockdownState, chain: &Vec<CommandLink>) -> (r: Result<
    (),
    LockdownRefusal,
>)
    ensures
        r is Ok <==> !(state.enabled() && chain_marked(chain@)),
        r is Err ==> (r->Err_0 matches LockdownRefusal::RiskyCommand { risky_cmd } && risky_cmd@ == join_sep(
            chain_names(chain@),
            seq![' '],
        )),
{
    if is_lockdown_enabled(state) {
        let (risky, risky_cmd) = check_marker(chain);
        if risky {
            return Err(LockdownRefusal::RiskyCommand { risky_cmd });
        }
    }
    Ok(())
}

/// The GDScript suggestions for the rest of a line: none in lockdown mode,
/// otherwise the matching candidates in their order.
pub fn gdscript_suggestions(state: &LockdownState, haystack: Vec<AutocompleteSlot>, line: &str) -> (r: Vec<
    AutocompleteSlot,
>)
    ensures
        state.enabled() ==> r@.len() == 0,
        !state.enabled() ==> r@ == stable_sort(gdscript_candidates(haystack@, line@)).map_values(
            |p: (KeyView, AutocompleteSlot)| p.1,
        ),
{
    if is_lockdown_enabled(state) {
        Vec::new()
    } else {
        rank_gdscript_slots(haystack, line)
    }
}

/// Whether a marker is inherited down the chain, as the reference pages
/// compute it: a command has it when its parent has it or it is marked itself.
pub open spec fn inherited_marker(chain: Seq<CommandLink>) -> bool
    decreases chain.len(),
{
    if chain.len() == 0 {
        false
    } else {
        inherited_marker(chain.drop_last()) || chain.last().marked
    }
}

/// The reference pages and the lockdown check agree on which commands are
/// risky: the marker inherited from the root down to a command is present
/// exactly when some command of its chain is marked.
pub proof fn lemma_marker_inheritance(chain: Seq<CommandLink>)
    ensures
        inherited_marker(chain) == chain_marked(chain),
    decreases chain.len(),
{
    if chain.len() > 0 {
        lemma_marker_inheritance(chain.drop_last());
        let d = chain.drop_last();
        if chain_marked(d) {
            let i = choose|i: int| 0 <= i < d.len() && #[trigger] d[i].marked;
            assert(chain[i].marked);
        }
        if chain_marked(chain) && !chain.last().marked {
            let i = choose|i: int| 0 <= i < chain.len() && #[trigger] chain[i].marked;
            assert(d[i].marked);
        }
        if chain.last().marked {
            assert(chain[chain.len() - 1].marked);
        }
    }
}

} // verus!
