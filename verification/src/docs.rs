//! The command reference: one markdown page per console command, with tables of
//! its arguments and options.

use vstd::prelude::*;
use crate::expr::{join_chars, join_sep};
use crate::numbers::{replace, replace_all};
use crate::text::{
    chars_of, copy_strings, extend_chars, push_chars, string_of, to_uppercase, trim, trim_spec, uppercase,
    views,
};

verus! {

/// `s` made safe for a table cell: `|` is escaped and line breaks become `<br>`.
pub open spec fn escape_spec(s: Seq<char>) -> Seq<char> {
    replace_all(replace_all(s, seq!['|'], seq!['\\', '|']), seq!['\n'], seq!['<', 'b', 'r', '>'])
}

proof fn lemma_replace_removes(s: Seq<char>, c: char, rep: Seq<char>)
    requires
        !rep.contains(c),
    ensures
        !replace_all(s, seq![c], rep).contains(c),
    decreases s.len(),
{
    if s.len() > 0 {
        let r = replace_all(s, seq![c], rep);
        if s.take(1) == seq![c] {
            lemma_replace_removes(s.skip(1), c, rep);
            let t = replace_all(s.skip(1), seq![c], rep);
            assert(r == rep + t);
            assert forall|k: int| 0 <= k < r.len() implies r[k] != c by {
                if k < rep.len() {
                    assert(r[k] == rep[k]);
                } else {
                    assert(r[k] == t[k - rep.len()]);
                }
            }
        } else {
            assert(s[0] != c) by {
                if s[0] == c {
                    assert(s.take(1) =~= seq![c]);
                }
            }
            lemma_replace_removes(s.drop_first(), c, rep);
            let t = replace_all(s.drop_first(), seq![c], rep);
            assert(r == seq![s[0]] + t);
            assert forall|k: int| 0 <= k < r.len() implies r[k] != c by {
                if k > 0 {
                    assert(r[k] == t[k - 1]);
                }
            }
        }
    }
}

/// An escaped cell never holds a line break, so a table row stays one line.
pub proof fn lemma_escaped_cell_single_line(s: Seq<char>)
    ensures
        !escape_spec(s).contains('\n'),
{
    let br = seq!['<', 'b', 'r', '>'];
    assert(!br.contains('\n')) by {
        if br.contains('\n') {
            let k = choose|k: int| 0 <= k < br.len() && br[k] == '\n';
            assert(br[k] != '\n');
        }
    }
    lemma_replace_removes(replace_all(s, seq!['|'], seq!['\\', '|']), '\n', br);
}

/// Escapes `s` for a markdown table cell.
pub fn escape_table_cell(s: &str) -> (r: String)
    ensures
        r@ == escape_spec(s@),
{
    proof {
        reveal_strlit("|");
        reveal_strlit("\\|");
        reveal_strlit("\n");
        reveal_strlit("<br>");
        assert("|"@ =~= seq!['|']);
        assert("\\|"@ =~= seq!['\\', '|']);
        assert("\n"@ =~= seq!['\n']);
        assert("<br>"@ =~= seq!['<', 'b', 'r', '>']);
    }
    let a = replace(s, "|", "\\|");
    replace(a.as_str(), "\n", "<br>")
}

/// One value in backticks, escaped.
pub open spec fn mono_spec(v: Seq<char>) -> Seq<char> {
    seq!['`'] + escape_spec(v) + seq!['`']
}

/// The values in backticks, separated by `, `.
pub open spec fn mono_csv_spec(values: Seq<Seq<char>>) -> Seq<char> {
    join_sep(values.map_values(|v: Seq<char>| mono_spec(v)), seq![',', ' '])
}

/// Joins the values as monospace: `["a", "b"]` gives `` `a`, `b` ``.
pub fn mono_csv(values: &Vec<String>) -> (r: String)
    ensures
        r@ == mono_csv_spec(views(values@)),
{
    let ghost vs = views(values@);
    let mut pieces: Vec<Vec<char>> = Vec::new();
    for k in 0..values.len()
        invariant
            vs == views(values@),
            pieces@.map_values(|p: Vec<char>| p@) == vs.take(k as int).map_values(|v: Seq<char>| mono_spec(v)),
    {
        let e = escape_table_cell(values[k].as_str());
        let mut piece: Vec<char> = Vec::new();
        piece.push('`');
        push_chars(&mut piece, e.as_str());
        piece.push('`');
        assert(piece@ =~= mono_spec(vs[k as int]));
        let ghost before = pieces@;
        pieces.push(piece);
        proof {
            assert(vs.take(k + 1) =~= vs.take(k as int).push(vs[k as int]));
            assert(pieces@.map_values(|p: Vec<char>| p@) =~= before.map_values(|p: Vec<char>| p@).push(
                mono_spec(vs[k as int]),
            ));
            assert(vs.take(k + 1).map_values(|v: Seq<char>| mono_spec(v)) =~= vs.take(k as int).map_values(
                |v: Seq<char>| mono_spec(v),
            ).push(mono_spec(vs[k as int])));
        }
    }
    proof {
        reveal_strlit(", ");
        assert(vs.take(values.len() as int) =~= vs);
        assert(pieces@.map_values(|p: Vec<char>| p@).take(pieces.len() as int) =~= pieces@.map_values(
            |p: Vec<char>| p@,
        ));
        assert(", "@ =~= seq![',', ' ']);
    }
    string_of(&join_chars(&pieces, pieces.len(), ", "))
}

/// One row of a command's argument table.
pub struct ArgRow {
    pub name: String,
    pub help: String,
    pub possible_values: Vec<String>,
    pub default_values: Vec<String>,
}

/// The text of an argument row.
pub struct ArgRowView {
    pub name: Seq<char>,
    pub help: Seq<char>,
    pub possible_values: Seq<Seq<char>>,
    pub default_values: Seq<Seq<char>>,
}

impl View for ArgRow {
    type V = ArgRowView;

    open spec fn view(&self) -> ArgRowView {
        ArgRowView {
            name: self.name@,
            help: self.help@,
            possible_values: views(self.possible_values@),
            default_values: views(self.default_values@),
        }
    }
}

/// The table line of one row.
pub open spec fn row_line(r: ArgRowView) -> Seq<char> {
    "| "@ + r.name + " | "@ + escape_spec(r.help) + " | "@ + mono_csv_spec(r.possible_values) + " | "@
        + mono_csv_spec(r.default_values) + " |\n"@
}

/// The lines one after the other.
pub open spec fn lines_text(lines: Seq<Seq<char>>) -> Seq<char>
    decreases lines.len(),
{
    if lines.len() == 0 {
        seq![]
    } else {
        lines_text(lines.drop_last()) + lines.last()
    }
}

/// The head of every argument table.
pub open spec fn table_header() -> Seq<char> {
    "| Name | Description | Possible values | Default |\n| --- | --- | --- | --- |\n"@
}

/// The rows that have a name.
pub open spec fn named_rows(rows: Seq<ArgRowView>) -> Seq<ArgRowView> {
    rows.filter(|r: ArgRowView| r.name.len() > 0)
}

/// The markdown table of the rows that have a name; empty when none has one.
pub open spec fn table_spec(rows: Seq<ArgRowView>) -> Seq<char> {
    let named = named_rows(rows);
    if named.len() == 0 {
        seq![]
    } else {
        table_header() + lines_text(named.map_values(|r: ArgRowView| row_line(r)))
    }
}

fn append_row_line(out: &mut Vec<char>, row: &ArgRow)
    ensures
        final(out)@ == old(out)@ + row_line(row@),
{
    let ghost start = out@;
    push_chars(out, "| ");
    push_chars(out, row.name.as_str());
    push_chars(out, " | ");
    let help = escape_table_cell(row.help.as_str());
    push_chars(out, help.as_str());
    push_chars(out, " | ");
    let pv = mono_csv(&row.possible_values);
    push_chars(out, pv.as_str());
    push_chars(out, " | ");
    let dv = mono_csv(&row.default_values);
    push_chars(out, dv.as_str());
    push_chars(out, " |\n");
    assert(out@ =~= start + row_line(row@));
}

/// The markdown table of the argument rows, leaving out rows without a name;
/// the empty string when no row has a name.
pub fn markdown_table(items: &Vec<ArgRow>) -> (r: String)
    ensures
        r@ == table_spec(items@.map_values(|a: ArgRow| a@)),
{
    let ghost rows = items@.map_values(|a: ArgRow| a@);
    let mut body: Vec<char> = Vec::new();
    let mut any = false;
    for k in 0..items.len()
        invariant
            rows == items@.map_values(|a: ArgRow| a@),
            body@ == lines_text(named_rows(rows.take(k as int)).map_values(|r: ArgRowView| row_line(r))),
            any == (named_rows(rows.take(k as int)).len() > 0),
    {
        let ghost before = body@;
        proof {
            assert(rows.take(k + 1).drop_last() =~= rows.take(k as int));
            assert(rows.take(k + 1).last() == items@[k as int]@);
            reveal_with_fuel(Seq::filter, 1);
        }
        let name = chars_of(items[k].name.as_str());
        if name.len() > 0 {
            append_row_line(&mut body, &items[k]);
            any = true;
            proof {
                let f = |r: ArgRowView| row_line(r);
                let old_named = named_rows(rows.take(k as int));
                assert(named_rows(rows.take(k + 1)) =~= old_named.push(items@[k as int]@));
                assert(old_named.push(items@[k as int]@).map_values(f) =~= old_named.map_values(f).push(
                    row_line(items@[k as int]@),
                ));
                assert(old_named.push(items@[k as int]@).map_values(f).drop_last() =~= old_named.map_values(f));
            }
        } else {
            assert(named_rows(rows.take(k + 1)) =~= named_rows(rows.take(k as int)));
        }
    }
    assert(rows.take(items.len() as int) =~= rows);
    if !any {
        return String::new();
    }
    let mut table: Vec<char> = Vec::new();
    push_chars(&mut table, "| Name | Description | Possible values | Default |\n| --- | --- | --- | --- |\n");
    extend_chars(&mut table, &body);
    string_of(&table)
}

/// A value that an argument accepts, and whether its listing is hidden.
pub struct PossibleValueInfo {
    pub name: String,
    pub hidden: bool,
}

/// What the reference shows of one argument of a command.
pub struct ArgInfo {
    pub positional: bool,
    pub id: String,
    pub value_names: Option<Vec<String>>,
    pub short: Option<char>,
    pub long: Option<String>,
    pub help: Option<String>,
    pub possible_values: Vec<PossibleValueInfo>,
    pub default_values: Vec<String>,
}

/// The name column of an argument: its value names (or its upper-cased id) in
/// `<..>` for a positional argument, its short and long flags otherwise.
pub open spec fn arg_name_spec(a: ArgInfo) -> Seq<char> {
    if a.positional {
        match a.value_names {
            Some(names) => join_sep(
                views(names@).map_values(|n: Seq<char>| "`<"@ + n + ">`"@),
                "<br>"@,
            ),
            None => "`<"@ + uppercase(a.id@) + ">`"@,
        }
    } else {
        let shorts: Seq<Seq<char>> = match a.short {
            Some(c) => seq!["`-"@ + seq![c] + "`"@],
            None => seq![],
        };
        let longs: Seq<Seq<char>> = match a.long {
            Some(l) => seq!["`--"@ + l@ + "`"@],
            None => seq![],
        };
        join_sep(shorts + longs, "<br>"@)
    }
}

/// The names of the values that are listed (not hidden).
pub open spec fn listed_values(pvs: Seq<PossibleValueInfo>) -> Seq<Seq<char>> {
    pvs.filter(|p: PossibleValueInfo| !p.hidden).map_values(|p: PossibleValueInfo| p.name@)
}

/// The table row of an argument.
pub open spec fn arg_row_spec(a: ArgInfo) -> ArgRowView {
    ArgRowView {
        name: arg_name_spec(a),
        help: match a.help {
            Some(h) => h@,
            None => seq![],
        },
        possible_values: listed_values(a.possible_values@),
        default_values: views(a.default_values@),
    }
}

fn wrap_each(names: &Vec<String>, open: &str, close: &str) -> (r: Vec<Vec<char>>)
    ensures
        r@.map_values(|p: Vec<char>| p@) == views(names@).map_values(|n: Seq<char>| open@ + n + close@),
{
    let ghost vs = views(names@);
    let mut out: Vec<Vec<char>> = Vec::new();
    for k in 0..names.len()
        invariant
            vs == views(names@),
            out@.map_values(|p: Vec<char>| p@) == vs.take(k as int).map_values(|n: Seq<char>| open@ + n + close@),
    {
        let mut piece: Vec<char> = Vec::new();
        push_chars(&mut piece, open);
        push_chars(&mut piece, names[k].as_str());
        push_chars(&mut piece, close);
        let ghost before = out@;
        out.push(piece);
        proof {
            assert(vs.take(k + 1) =~= vs.take(k as int).push(vs[k as int]));
            assert(out@.map_values(|p: Vec<char>| p@) =~= before.map_values(|p: Vec<char>| p@).push(
                open@ + vs[k as int] + close@,
            ));
            assert(vs.take(k + 1).map_values(|n: Seq<char>| open@ + n + close@) =~= vs.take(k as int).map_values(
                |n: Seq<char>| open@ + n + close@,
            ).push(open@ + vs[k as int] + close@));
        }
    }
    assert(vs.take(names.len() as int) =~= vs);
    out
}

fn arg_name(a: &ArgInfo) -> (r: String)
    ensures
        r@ == arg_name_spec(*a),
{
    if a.positional {
        match &a.value_names {
            Some(names) => {
                let pieces = wrap_each(names, "`<", ">`");
                assert(pieces@.map_values(|p: Vec<char>| p@).take(pieces.len() as int) =~= pieces@.map_values(
                    |p: Vec<char>| p@,
                ));
                string_of(&join_chars(&pieces, pieces.len(), "<br>"))
            },
            None => {
                let up = to_uppercase(a.id.as_str());
                let mut out: Vec<char> = Vec::new();
                push_chars(&mut out, "`<");
                push_chars(&mut out, up.as_str());
                push_chars(&mut out, ">`");
                string_of(&out)
            },
        }
    } else {
        let mut pieces: Vec<Vec<char>> = Vec::new();
        let ghost shorts: Seq<Seq<char>> = match a.short {
            Some(c) => seq!["`-"@ + seq![c] + "`"@],
            None => seq![],
        };
        if let Some(c) = a.short {
            let mut piece: Vec<char> = Vec::new();
            push_chars(&mut piece, "`-");
            piece.push(c);
            push_chars(&mut piece, "`");
            assert(piece@ =~= "`-"@ + seq![c] + "`"@);
            pieces.push(piece);
            assert(pieces@.map_values(|p: Vec<char>| p@) =~= seq!["`-"@ + seq![c] + "`"@]);
        }
        assert(pieces@.map_values(|p: Vec<char>| p@) =~= shorts);
        let ghost longs: Seq<Seq<char>> = if a.long is Some {
            seq!["`--"@ + a.long->0@ + "`"@]
        } else {
            seq![]
        };
        if let Some(l) = &a.long {
            let mut piece: Vec<char> = Vec::new();
            push_chars(&mut piece, "`--");
            push_chars(&mut piece, l.as_str());
            push_chars(&mut piece, "`");
            assert(piece@ =~= "`--"@ + l@ + "`"@);
            let ghost before = pieces@;
            pieces.push(piece);
            assert(pieces@.map_values(|p: Vec<char>| p@) =~= before.map_values(|p: Vec<char>| p@).push(
                "`--"@ + l@ + "`"@,
            ));
        }
        assert(pieces@.map_values(|p: Vec<char>| p@) =~= shorts + longs);
        assert(pieces@.map_values(|p: Vec<char>| p@).take(pieces.len() as int) =~= pieces@.map_values(
            |p: Vec<char>| p@,
        ));
        string_of(&join_chars(&pieces, pieces.len(), "<br>"))
    }
}

/// The table row of an argument: its name, its help (empty when it has none),
/// the values it lists and its default values.
pub fn format_arg(a: &ArgInfo) -> (r: ArgRow)
    ensures
        r@ == arg_row_spec(*a),
{
    let name = arg_name(a);
    let help = match &a.help {
        Some(h) => h.clone(),
        None => String::new(),
    };
    let mut possible_values: Vec<String> = Vec::new();
    let ghost pvs = a.possible_values@;
    for k in 0..a.possible_values.len()
        invariant
            pvs == a.possible_values@,
            views(possible_values@) == listed_values(pvs.take(k as int)),
    {
        let ghost before = possible_values@;
        proof {
            assert(pvs.take(k + 1).drop_last() =~= pvs.take(k as int));
            reveal_with_fuel(Seq::filter, 1);
        }
        if !a.possible_values[k].hidden {
            possible_values.push(a.possible_values[k].name.clone());
            proof {
                let kept = pvs.take(k as int).filter(|p: PossibleValueInfo| !p.hidden);
                assert(pvs.take(k + 1).filter(|p: PossibleValueInfo| !p.hidden) =~= kept.push(pvs[k as int]));
                assert(kept.push(pvs[k as int]).map_values(|p: PossibleValueInfo| p.name@) =~= kept.map_values(
                    |p: PossibleValueInfo| p.name@,
                ).push(pvs[k as int].name@));
                assert(views(possible_values@) =~= views(before).push(pvs[k as int].name@));
            }
        } else {
            assert(pvs.take(k + 1).filter(|p: PossibleValueInfo| !p.hidden) =~= pvs.take(k as int).filter(
                |p: PossibleValueInfo| !p.hidden,
            ));
        }
    }
    assert(pvs.take(a.possible_values.len() as int) =~= pvs);
    let default_values = copy_strings(&a.default_values);
    ArgRow { name, help, possible_values, default_values }
}

/// The rows of the arguments.
pub open spec fn arg_rows(args: Seq<ArgInfo>) -> Seq<ArgRowView> {
    args.map_values(|a: ArgInfo| arg_row_spec(a))
}

fn format_args(args: &Vec<ArgInfo>) -> (r: Vec<ArgRow>)
    ensures
        r@.map_values(|a: ArgRow| a@) == arg_rows(args@),
{
    let mut out: Vec<ArgRow> = Vec::new();
    for k in 0..args.len()
        invariant
            out@.map_values(|a: ArgRow| a@) == arg_rows(args@.take(k as int)),
    {
        let row = format_arg(&args[k]);
        let ghost before = out@;
        out.push(row);
        assert(out@.map_values(|a: ArgRow| a@) =~= before.map_values(|a: ArgRow| a@).push(arg_row_spec(args@[k as int])));
        assert(args@.take(k + 1) =~= args@.take(k as int).push(args@[k as int]));
        assert(arg_rows(args@.take(k + 1)) =~= arg_rows(args@.take(k as int)).push(arg_row_spec(args@[k as int])));
    }
    assert(args@.take(args.len() as int) =~= args@);
    out
}

/// The notice on the page of a risky command.
pub open spec fn risky_notice() -> Seq<char> {
    "!!! danger \"Risky\"\n    This command is marked as risky, so it cannot be used in lockdown mode.\n"@
}

/// The notice on the page of an experimental command.
pub open spec fn experimental_notice() -> Seq<char> {
    "!!! example \"Experimental\"\n    This command is marked as experimental, so it may be subject to change.\n"@
}

/// A titled section, left out when its body is empty.
pub open spec fn section(title: Seq<char>, body: Seq<char>) -> Seq<char> {
    if body.len() > 0 {
        title + body + "\n"@
    } else {
        seq![]
    }
}

/// The reference page of a command: title, description, usage, the tables of
/// its arguments and options, and the notices of its markers.
pub open spec fn help_page_spec(
    full_name: Seq<char>,
    about: Seq<char>,
    usage: Seq<char>,
    positionals: Seq<ArgInfo>,
    options: Seq<ArgInfo>,
    risky: bool,
    experimental: bool,
) -> Seq<char> {
    let about = trim_spec(about);
    let usage = trim_spec(usage);
    "# `"@ + full_name + "`\n\n"@ + (if about.len() > 0 {
        about + "\n\n"@
    } else {
        seq![]
    }) + (if usage.len() > 0 {
        "Usage: `"@ + usage + "`\n\n"@
    } else {
        seq![]
    }) + section("## Arguments\n\n"@, table_spec(arg_rows(positionals))) + section(
        "## Options\n\n"@,
        table_spec(arg_rows(options)),
    ) + (if risky {
        risky_notice()
    } else {
        seq![]
    }) + (if experimental {
        experimental_notice()
    } else {
        seq![]
    })
}

fn section_chars(title: &str, body: &Vec<char>) -> (r: Vec<char>)
    ensures
        r@ == section(title@, body@),
{
    let mut out: Vec<char> = Vec::new();
    if body.len() > 0 {
        push_chars(&mut out, title);
        extend_chars(&mut out, body);
        push_chars(&mut out, "\n");
    }
    assert(out@ =~= section(title@, body@));
    out
}

/// The markdown page of a command. `about` and `usage` are the rendered
/// description and usage line, trimmed here.
pub fn help_page(
    full_name: &str,
    about: &str,
    usage: &str,
    positionals: &Vec<ArgInfo>,
    options: &Vec<ArgInfo>,
    risky: bool,
    experimental: bool,
) -> (r: String)
    ensures
        r@ == help_page_spec(full_name@, about@, usage@, positionals@, options@, risky, experimental),
{
    let mut out: Vec<char> = Vec::new();
    push_chars(&mut out, "# `");
    push_chars(&mut out, full_name);
    push_chars(&mut out, "`\n\n");
    let ghost p0 = out@;
    assert(p0 =~= "# `"@ + full_name@ + "`\n\n"@);
    let about_text = chars_of(trim(about).as_str());
    let mut about_part: Vec<char> = Vec::new();
    if about_text.len() > 0 {
        extend_chars(&mut about_part, &about_text);
        push_chars(&mut about_part, "\n\n");
    }
    extend_chars(&mut out, &about_part);
    let ghost p1 = out@;
    let usage_text = chars_of(trim(usage).as_str());
    let mut usage_part: Vec<char> = Vec::new();
    if usage_text.len() > 0 {
        push_chars(&mut usage_part, "Usage: `");
        extend_chars(&mut usage_part, &usage_text);
        push_chars(&mut usage_part, "`\n\n");
    }
    extend_chars(&mut out, &usage_part);
    let ghost p2 = out@;
    let arg_table = chars_of(markdown_table(&format_args(positionals)).as_str());
    let args_part = section_chars("## Arguments\n\n", &arg_table);
    extend_chars(&mut out, &args_part);
    let ghost p3 = out@;
    let opt_table = chars_of(markdown_table(&format_args(options)).as_str());
    let opts_part = section_chars("## Options\n\n", &opt_table);
    extend_chars(&mut out, &opts_part);
    let ghost p4 = out@;
    let mut risky_part: Vec<char> = Vec::new();
    if risky {
        push_chars(
            &mut risky_part,
            "!!! danger \"Risky\"\n    This command is marked as risky, so it cannot be used in lockdown mode.\n",
        );
    }
    extend_chars(&mut out, &risky_part);
    let ghost p5 = out@;
    let mut experimental_part: Vec<char> = Vec::new();
    if experimental {
        push_chars(
            &mut experimental_part,
            "!!! example \"Experimental\"\n    This command is marked as experimental, so it may be subject to change.\n",
        );
    }
    extend_chars(&mut out, &experimental_part);
    proof {
        assert(about_part@ =~= (if trim_spec(about@).len() > 0 {
            trim_spec(about@) + "\n\n"@
        } else {
            seq![]
        }));
        assert(usage_part@ =~= (if trim_spec(usage@).len() > 0 {
            "Usage: `"@ + trim_spec(usage@) + "`\n\n"@
        } else {
            seq![]
        }));
        assert(risky_part@ =~= (if risky {
            risky_notice()
        } else {
            seq![]
        }));
        assert(experimental_part@ =~= (if experimental {
            experimental_notice()
        } else {
            seq![]
        }));
    }
    assert(out@ == p0 + about_part@ + usage_part@ + args_part@ + opts_part@ + risky_part@ + experimental_part@);
    string_of(&out)
}

/// `name` after the names of the commands above it.
pub open spec fn full_name_spec(prefix: Seq<char>, name: Seq<char>) -> Seq<char> {
    if prefix.len() == 0 {
        name
    } else {
        prefix + seq![' '] + name
    }
}

/// The full name of a subcommand: the names from the root down, separated by spaces.
pub fn full_command_name(prefix: &str, name: &str) -> (r: String)
    ensures
        r@ == full_name_spec(prefix@, name@),
{
    let mut out = chars_of(prefix);
    if out.len() > 0 {
        out.push(' ');
    }
    push_chars(&mut out, name);
    string_of(&out)
}

/// A command of the reference and its subcommands, with the description and
/// usage line rendered for it.
pub struct CommandDoc {
    pub name: String,
    pub about: String,
    pub usage: String,
    pub positionals: Vec<ArgInfo>,
    pub options: Vec<ArgInfo>,
    pub risky: bool,
    pub experimental: bool,
    pub subcommands: Vec<CommandDoc>,
}

/// A page of the reference and the folder it goes to, as folder names below
/// the reference's root.
pub struct HelpPage {
    pub dir: Vec<String>,
    pub markdown: String,
}

/// The text of a page and of its folder.
pub struct HelpPageView {
    pub dir: Seq<Seq<char>>,
    pub markdown: Seq<char>,
}

impl View for HelpPage {
    type V = HelpPageView;

    open spec fn view(&self) -> HelpPageView {
        HelpPageView { dir: views(self.dir@), markdown: self.markdown@ }
    }
}

/// The pages of a command and, after it, those of its subcommands in order,
/// each in the folder of its parent followed by its own name. A command is
/// risky (experimental) when it or a command above it is marked so.
pub open spec fn doc_pages(
    cmd: CommandDoc,
    dir: Seq<Seq<char>>,
    prefix: Seq<char>,
    risky: bool,
    experimental: bool,
) -> Seq<HelpPageView>
    decreases cmd, cmd.subcommands@.len() + 1,
{
    let full = full_name_spec(prefix, cmd.name@);
    let r = risky || cmd.risky;
    let e = experimental || cmd.experimental;
    seq![
        HelpPageView {
            dir,
            markdown: help_page_spec(full, cmd.about@, cmd.usage@, cmd.positionals@, cmd.options@, r, e),
        },
    ] + sub_pages(cmd, cmd.subcommands@.len() as int, dir, full, r, e)
}

/// The pages of the first `k` subcommands of `cmd`.
pub open spec fn sub_pages(
    cmd: CommandDoc,
    k: int,
    dir: Seq<Seq<char>>,
    full: Seq<char>,
    risky: bool,
    experimental: bool,
) -> Seq<HelpPageView>
    decreases cmd, k,
{
    if k <= 0 || k > cmd.subcommands@.len() {
        seq![]
    } else {
        let sub = cmd.subcommands@[k - 1];
        sub_pages(cmd, k - 1, dir, full, risky, experimental) + doc_pages(
            sub,
            dir.push(sub.name@),
            full,
            risky,
            experimental,
        )
    }
}

fn collect_pages(
    cmd: &CommandDoc,
    dir: &Vec<String>,
    prefix: &str,
    risky: bool,
    experimental: bool,
    out: &mut Vec<HelpPage>,
)
    ensures
        final(out)@.map_values(|p: HelpPage| p@) == old(out)@.map_values(|p: HelpPage| p@) + doc_pages(
            *cmd,
            views(dir@),
            prefix@,
            risky,
            experimental,
        ),
    decreases cmd,
{
    let ghost start = out@.map_values(|p: HelpPage| p@);
    let full = full_command_name(prefix, cmd.name.as_str());
    let r = risky || cmd.risky;
    let e = experimental || cmd.experimental;
    let markdown = help_page(
        full.as_str(),
        cmd.about.as_str(),
        cmd.usage.as_str(),
        &cmd.positionals,
        &cmd.options,
        r,
        e,
    );
    let page = HelpPage { dir: copy_strings(dir), markdown };
    let ghost first = page@;
    out.push(page);
    assert(out@.map_values(|p: HelpPage| p@) =~= start.push(first));
    let n = cmd.subcommands.len();
    for i in 0..n
        invariant
            n == cmd.subcommands@.len(),
            out@.map_values(|p: HelpPage| p@) == start.push(first) + sub_pages(
                *cmd,
                i as int,
                views(dir@),
                full@,
                r,
                e,
            ),
    {
        let sub = &cmd.subcommands[i];
        let mut d = copy_strings(dir);
        d.push(sub.name.clone());
        assert(views(d@) =~= views(dir@).push(sub.name@));
        let ghost mid = out@.map_values(|p: HelpPage| p@);
        proof {
            assert(decreases_to!(*cmd => cmd.subcommands));
            assert(decreases_to!(cmd.subcommands => cmd.subcommands@));
            assert(decreases_to!(cmd.subcommands@ => cmd.subcommands@[i as int]));
        }
        collect_pages(sub, &d, full.as_str(), r, e, out);
        assert(out@.map_values(|p: HelpPage| p@) =~= start.push(first) + sub_pages(
            *cmd,
            i + 1,
            views(dir@),
            full@,
            r,
            e,
        ));
    }
    assert(doc_pages(*cmd, views(dir@), prefix@, risky, experimental) =~= seq![first] + sub_pages(
        *cmd,
        n as int,
        views(dir@),
        full@,
        r,
        e,
    ));
    assert(start.push(first) =~= start + seq![first]);
}

/// The pages of the reference for `cmd` and all its subcommands, the page of
/// `cmd` first, in the reference's root folder; `prefix` is put before the
/// names of the commands.
pub fn write_help_docs(cmd: &CommandDoc, prefix: &str) -> (r: Vec<HelpPage>)
    ensures
        r@.map_values(|p: HelpPage| p@) == doc_pages(*cmd, seq![], prefix@, false, false),
{
    let mut out: Vec<HelpPage> = Vec::new();
    let dir: Vec<String> = Vec::new();
    assert(views(dir@) =~= Seq::<Seq<char>>::empty());
    collect_pages(cmd, &dir, prefix, false, false, &mut out);
    assert(out@.map_values(|p: HelpPage| p@) =~= Seq::<HelpPageView>::empty() + doc_pages(
        *cmd,
        seq![],
        prefix@,
        false,
        false,
    ));
    out
}

} // verus!
