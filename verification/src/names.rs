//! Names: which names GDScript variables and custom console commands may take.

use vstd::prelude::*;
use crate::text::{
    chars_equal, chars_of, concat, has_infix, is_alnum, is_alpha, is_ascii_alnum, is_ascii_alpha,
    string_of,
};

verus! {

/// The reserved words of GDScript, plus built-in constants that should not be shadowed.
pub open spec fn reserved_keywords() -> Seq<Seq<char>> {
    seq![
        "if"@,
        "elif"@,
        "else"@,
        "for"@,
        "while"@,
        "match"@,
        "when"@,
        "break"@,
        "continue"@,
        "pass"@,
        "return"@,
        "class"@,
        "class_name"@,
        "extends"@,
        "is"@,
        "as"@,
        "self"@,
        "super"@,
        "signal"@,
        "func"@,
        "static"@,
        "const"@,
        "enum"@,
        "var"@,
        "void"@,
        "breakpoint"@,
        "preload"@,
        "await"@,
        "yield"@,
        "assert"@,
        "PI"@,
        "TAU"@,
        "INF"@,
        "NAN"@,
        "true"@,
        "false"@,
        "null"@,
        "in"@,
        "not"@,
        "and"@,
        "or"@
    ]
}

pub const N_RESERVED_KEYWORDS: usize = 41;

fn reserved_keyword(k: usize) -> (r: &'static str)
    requires
        k < N_RESERVED_KEYWORDS,
    ensures
        r@ == reserved_keywords()[k as int],
{
    match k {
        0 => "if",
        1 => "elif",
        2 => "else",
        3 => "for",
        4 => "while",
        5 => "match",
        6 => "when",
        7 => "break",
        8 => "continue",
        9 => "pass",
        10 => "return",
        11 => "class",
        12 => "class_name",
        13 => "extends",
        14 => "is",
        15 => "as",
        16 => "self",
        17 => "super",
        18 => "signal",
        19 => "func",
        20 => "static",
        21 => "const",
        22 => "enum",
        23 => "var",
        24 => "void",
        25 => "breakpoint",
        26 => "preload",
        27 => "await",
        28 => "yield",
        29 => "assert",
        30 => "PI",
        31 => "TAU",
        32 => "INF",
        33 => "NAN",
        34 => "true",
        35 => "false",
        36 => "null",
        37 => "in",
        38 => "not",
        39 => "and",
        40 => "or",
        _ => "or",
    }
}

/// Is `s` one of the reserved words?
pub fn is_reserved_keyword(s: &str) -> (r: bool)
    ensures
        r == reserved_keywords().contains(s@),
{
    let v = chars_of(s);
    let mut k: usize = 0;
    while k < N_RESERVED_KEYWORDS
        invariant
            k <= N_RESERVED_KEYWORDS,
            v@ == s@,
            reserved_keywords().len() == N_RESERVED_KEYWORDS,
            forall|j: int| 0 <= j < k ==> reserved_keywords()[j] != s@,
        decreases N_RESERVED_KEYWORDS - k,
    {
        if chars_equal(&chars_of(reserved_keyword(k)), &v) {
            return true;
        }
        k += 1;
    }
    false
}

/// A valid GDScript variable name: not `_`, not reserved, an ASCII letter or `_`
/// followed by ASCII letters, digits and `_`.
pub open spec fn valid_variable_name(s: Seq<char>) -> bool {
    &&& s != seq!['_']
    &&& !reserved_keywords().contains(s)
    &&& s.len() > 0
    &&& (is_ascii_alpha(s[0]) || s[0] == '_')
    &&& forall|i: int| 1 <= i < s.len() ==> is_ascii_alnum(#[trigger] s[i]) || s[i] == '_'
}

/// Whether `s` can name a console variable (as in `:set name ...`).
pub fn is_valid_variable_name(s: &str) -> (r: bool)
    ensures
        r == valid_variable_name(s@),
{
    let v = chars_of(s);
    if v.len() == 1 && v[0] == '_' {
        assert(v@ =~= seq!['_']);
        return false;
    }
    if is_reserved_keyword(s) {
        return false;
    }
    if v.len() == 0 || !(is_alpha(v[0]) || v[0] == '_') {
        return false;
    }
    let mut i: usize = 1;
    while i < v.len()
        invariant
            1 <= i <= v.len(),
            v@ == s@,
            forall|j: int| 1 <= j < i ==> is_ascii_alnum(#[trigger] v@[j]) || v@[j] == '_',
        decreases v.len() - i,
    {
        if !(is_alnum(v[i]) || v[i] == '_') {
            return false;
        }
        i += 1;
    }
    proof {
        if v@ == seq!['_'] {
            assert(v@.len() == 1);
        }
    }
    true
}

/// A name a custom command may take: not empty, not starting with `-`, not
/// `help`, and made of ASCII letters, digits, `-` and `_`.
pub open spec fn valid_command_name(s: Seq<char>) -> bool {
    &&& s.len() > 0
    &&& s[0] != '-'
    &&& s != "help"@
    &&& forall|i: int| 0 <= i < s.len() ==> is_ascii_alnum(#[trigger] s[i]) || s[i] == '-' || s[i] == '_'
}

/// Why a custom command name is refused.
#[derive(Debug, PartialEq, Eq)]
pub enum CommandNameError {
    /// The name is not valid.
    Invalid(String),
    /// A built-in command (or one of its aliases) already has the name.
    Reserved(String),
}

impl CommandNameError {
    /// The message shown to the user.
    pub fn message(&self) -> (r: String)
        ensures
            r@ == match self {
                CommandNameError::Invalid(n) => "'"@ + n@ + "' is not a valid command name (it must be alphanumeric, must not start with a dash, and cannot be `help`)"@,
                CommandNameError::Reserved(n) => "'"@ + n@ + "' is reserved (a custom command cannot have the same name as a built-in command)"@,
            },
    {
        match self {
            CommandNameError::Invalid(n) => {
                let a = concat("'", n.as_str());
                concat(
                    a.as_str(),
                    "' is not a valid command name (it must be alphanumeric, must not start with a dash, and cannot be `help`)",
                )
            },
            CommandNameError::Reserved(n) => {
                let a = concat("'", n.as_str());
                concat(
                    a.as_str(),
                    "' is reserved (a custom command cannot have the same name as a built-in command)",
                )
            },
        }
    }
}

/// The name of a custom command: valid, and not taken by a built-in command.
pub struct CommandName(String);

impl View for CommandName {
    type V = Seq<char>;

    closed spec fn view(&self) -> Seq<char> {
        self.0@
    }
}

/// The views of a sequence of strings.
pub open spec fn name_views(v: Seq<String>) -> Seq<Seq<char>> {
    v.map_values(|s: String| s@)
}

impl CommandName {
    /// Whether `name` may name a custom command (regardless of built-in commands).
    pub fn is_valid(name: &str) -> (r: bool)
        ensures
            r == valid_command_name(name@),
    {
        let v = chars_of(name);
        if v.len() == 0 || v[0] == '-' {
            return false;
        }
        let help = chars_of("help");
        if chars_equal(&v, &help) {
            return false;
        }
        let mut i: usize = 0;
        while i < v.len()
            invariant
                i <= v.len(),
                v@ == name@,
                forall|j: int| 0 <= j < i ==> is_ascii_alnum(#[trigger] v@[j]) || v@[j] == '-' || v@[j] == '_',
            decreases v.len() - i,
        {
            if !(is_alnum(v[i]) || v[i] == '-' || v[i] == '_') {
                return false;
            }
            i += 1;
        }
        true
    }

    /// Whether no built-in command takes `name`; `reserved` holds the names and
    /// aliases of all built-in commands.
    pub fn is_available(name: &str, reserved: &Vec<String>) -> (r: bool)
        ensures
            r == !name_views(reserved@).contains(name@),
    {
        let v = chars_of(name);
        let mut k: usize = 0;
        while k < reserved.len()
            invariant
                k <= reserved.len(),
                v@ == name@,
                forall|j: int| 0 <= j < k ==> reserved@[j]@ != name@,
            decreases reserved.len() - k,
        {
            if chars_equal(&chars_of(reserved[k].as_str()), &v) {
                assert(name_views(reserved@)[k as int] == name@);
                return false;
            }
            k += 1;
        }
        assert forall|j: int| 0 <= j < name_views(reserved@).len() implies name_views(reserved@)[j] != name@ by {
            assert(name_views(reserved@)[j] == reserved@[j]@);
        }
        true
    }

    /// Checks a custom command name: first that it is valid, then that no
    /// built-in command (among `reserved`) takes it.
    pub fn new(name: String, reserved: &Vec<String>) -> (r: Result<CommandName, CommandNameError>)
        ensures
            !valid_command_name(name@) ==> (r matches Err(CommandNameError::Invalid(n)) && n@ == name@),
            valid_command_name(name@) && name_views(reserved@).contains(name@) ==> (r matches Err(
                CommandNameError::Reserved(n),
            ) && n@ == name@),
            valid_command_name(name@) && !name_views(reserved@).contains(name@) ==> (r matches Ok(c)
                && c@ == name@),
    {
        if !Self::is_valid(name.as_str()) {
            return Err(CommandNameError::Invalid(name));
        }
        if !Self::is_available(name.as_str(), reserved) {
            return Err(CommandNameError::Reserved(name));
        }
        Ok(CommandName(name))
    }

    /// The name.
    pub fn as_str(&self) -> (r: &str)
        ensures
            r@ == self@,
    {
        self.0.as_str()
    }
}

/// A value that may not contain braces, since braces mark template variables.
pub fn validate_no_braces(s: &str) -> (r: Result<String, String>)
    ensures
        match r {
            Ok(v) => !has_infix(s@, seq!['{']) && !has_infix(s@, seq!['}']) && v@ == s@,
            Err(m) => (has_infix(s@, seq!['{']) || has_infix(s@, seq!['}'])) && m@ == "value must not contain '{' or '}': `"@ + s@ + "`"@,
        },
{
    let v = chars_of(s);
    let mut open: Vec<char> = Vec::new();
    open.push('{');
    let mut close: Vec<char> = Vec::new();
    close.push('}');
    assert(open@ =~= seq!['{']);
    assert(close@ =~= seq!['}']);
    if crate::text::contains(&v, &open) || crate::text::contains(&v, &close) {
        let a = concat("value must not contain '{' or '}': `", s);
        Err(concat(a.as_str(), "`"))
    } else {
        Ok(string_of(&v))
    }
}

} // verus!
