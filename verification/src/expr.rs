//! Splits the call chain off the front of a partial GDScript expression, so that
//! autocompletion can follow it: `f().g(1, 2).h` gives the calls `f`, `g` and the
//! rest `h`.

use vstd::prelude::*;
use crate::text::{
    chars_of, concat, is_alnum, is_alpha, is_ascii_alnum, is_ascii_alpha, string_of,
    trim_start_chars, trim_start_spec,
};

verus! {

/// Characters allowed after the first character of a name.
pub open spec fn is_ident_char(c: char) -> bool {
    is_ascii_alnum(c) || c == '_'
}

/// Characters allowed as the first character of a name.
pub open spec fn is_ident_start(c: char) -> bool {
    is_ascii_alpha(c) || c == '_'
}

pub open spec fn is_paren(c: char) -> bool {
    c == '(' || c == ')'
}

/// Length of the run of name characters at the front of `s`.
pub open spec fn ident_run(s: Seq<char>) -> nat
    decreases s.len(),
{
    if s.len() > 0 && is_ident_char(s[0]) {
        1 + ident_run(s.drop_first())
    } else {
        0
    }
}

/// Length of the run of characters other than `(` and `)` at the front of `s`.
pub open spec fn args_run(s: Seq<char>) -> nat
    decreases s.len(),
{
    if s.len() > 0 && !is_paren(s[0]) {
        1 + args_run(s.drop_first())
    } else {
        0
    }
}

/// One link of a call chain.
pub enum ReduceExpressionResultSlot {
    /// A call `name(args).`: the name and the text between the parentheses.
    Method(String, String),
    /// A property access `name.`.
    Prop(String),
}

/// A link of a call chain, as characters.
pub enum SlotView {
    Method(Seq<char>, Seq<char>),
    Prop(Seq<char>),
}

impl View for ReduceExpressionResultSlot {
    type V = SlotView;

    open spec fn view(&self) -> SlotView {
        match self {
            ReduceExpressionResultSlot::Method(n, a) => SlotView::Method(n@, a@),
            ReduceExpressionResultSlot::Prop(n) => SlotView::Prop(n@),
        }
    }
}

/// The link matched at the front of `s` and how many characters it spans:
/// a name, optionally `(` followed by text without parentheses and `)`, then `.`.
pub open spec fn match_link(s: Seq<char>) -> Option<(SlotView, nat)> {
    if s.len() == 0 || !is_ident_start(s[0]) {
        None
    } else {
        let n = ident_run(s) as int;
        let name = s.take(n);
        if n < s.len() && s[n] == '.' {
            Some((SlotView::Prop(name), (n + 1) as nat))
        } else if n < s.len() && s[n] == '(' {
            let m = args_run(s.skip(n + 1)) as int;
            let close = n + 1 + m;
            if close + 1 < s.len() && s[close] == ')' && s[close + 1] == '.' {
                Some((SlotView::Method(name, s.subrange(n + 1, close)), (close + 2) as nat))
            } else {
                None
            }
        } else {
            None
        }
    }
}

pub proof fn lemma_ident_run_bound(s: Seq<char>)
    ensures
        ident_run(s) <= s.len(),
        forall|j: int| 0 <= j < ident_run(s) ==> is_ident_char(#[trigger] s[j]),
        ident_run(s) < s.len() ==> !is_ident_char(s[ident_run(s) as int]),
    decreases s.len(),
{
    if s.len() > 0 && is_ident_char(s[0]) {
        lemma_ident_run_bound(s.drop_first());
        assert forall|j: int| 0 <= j < ident_run(s) implies is_ident_char(#[trigger] s[j]) by {
            if j > 0 {
                assert(s[j] == s.drop_first()[j - 1]);
            }
        }
        if ident_run(s) < s.len() {
            assert(s[ident_run(s) as int] == s.drop_first()[ident_run(s) - 1]);
        }
    }
}

pub proof fn lemma_args_run_bound(s: Seq<char>)
    ensures
        args_run(s) <= s.len(),
        forall|j: int| 0 <= j < args_run(s) ==> !is_paren(#[trigger] s[j]),
        args_run(s) < s.len() ==> is_paren(s[args_run(s) as int]),
    decreases s.len(),
{
    if s.len() > 0 && !is_paren(s[0]) {
        lemma_args_run_bound(s.drop_first());
        assert forall|j: int| 0 <= j < args_run(s) implies !is_paren(#[trigger] s[j]) by {
            if j > 0 {
                assert(s[j] == s.drop_first()[j - 1]);
            }
        }
        if args_run(s) < s.len() {
            assert(s[args_run(s) as int] == s.drop_first()[args_run(s) - 1]);
        }
    }
}

/// A matched link spans at least two characters and lies within `s`.
pub proof fn lemma_match_link_len(s: Seq<char>)
    ensures
        match_link(s) matches Some((_, k)) ==> 2 <= k <= s.len(),
{
    lemma_ident_run_bound(s);
    if s.len() > 0 && is_ident_start(s[0]) {
        let n = ident_run(s) as int;
        lemma_args_run_bound(s.skip(n + 1));
    }
}

/// The call chain at the front of `s`, how many characters it spans, and the rest.
pub open spec fn reduce_spec(s: Seq<char>) -> (Seq<SlotView>, nat, Seq<char>)
    decreases s.len(),
{
    match match_link(s) {
        Some((slot, k)) => {
            if 0 < k <= s.len() {
                let r = reduce_spec(s.skip(k as int));
                (seq![slot] + r.0, k + r.1, r.2)
            } else {
                (seq![], 0, s)
            }
        },
        None => (seq![], 0, s),
    }
}

/// The outcome of [`reduce_expression`].
pub struct ReduceExpressionResult {
    /// The links of the call chain, in order.
    pub slots: Vec<ReduceExpressionResultSlot>,
    /// How many characters the call chain spans.
    pub indentation: usize,
    /// What follows the call chain.
    pub remaining: String,
}

/// A name: an ASCII letter or `_`, then ASCII letters, digits or `_`.
pub open spec fn is_name(n: Seq<char>) -> bool {
    &&& n.len() > 0
    &&& ('a' <= n[0] <= 'z') || ('A' <= n[0] <= 'Z') || n[0] == '_'
    &&& forall|j: int|
        1 <= j < n.len() ==> ('a' <= #[trigger] n[j] <= 'z') || ('A' <= n[j] <= 'Z') || ('0' <= n[j] <= '9')
            || n[j] == '_'
}

proof fn lemma_ident_run_of(n: Seq<char>, x: Seq<char>)
    requires
        forall|j: int| 0 <= j < n.len() ==> is_ident_char(#[trigger] n[j]),
        x.len() > 0,
        !is_ident_char(x[0]),
    ensures
        ident_run(n + x) == n.len(),
    decreases n.len(),
{
    if n.len() > 0 {
        assert((n + x).drop_first() =~= n.drop_first() + x);
        assert forall|j: int| 0 <= j < n.drop_first().len() implies is_ident_char(#[trigger] n.drop_first()[j]) by {
            assert(n.drop_first()[j] == n[j + 1]);
        }
        lemma_ident_run_of(n.drop_first(), x);
        assert((n + x)[0] == n[0]);
    } else {
        assert(n + x =~= x);
    }
}

proof fn lemma_args_run_of(a: Seq<char>, x: Seq<char>)
    requires
        forall|j: int| 0 <= j < a.len() ==> #[trigger] a[j] != '(' && a[j] != ')',
        x.len() > 0,
        x[0] == ')',
    ensures
        args_run(a + x) == a.len(),
    decreases a.len(),
{
    if a.len() > 0 {
        assert((a + x).drop_first() =~= a.drop_first() + x);
        assert forall|j: int| 0 <= j < a.drop_first().len() implies #[trigger] a.drop_first()[j] != '(' && a.drop_first()[j] != ')' by {
            assert(a.drop_first()[j] == a[j + 1]);
        }
        lemma_args_run_of(a.drop_first(), x);
        assert((a + x)[0] == a[0]);
    } else {
        assert(a + x =~= x);
    }
}

proof fn lemma_name_chars(n: Seq<char>)
    requires
        is_name(n),
    ensures
        is_ident_start(n[0]),
        forall|j: int| 0 <= j < n.len() ==> is_ident_char(#[trigger] n[j]),
{
    assert forall|j: int| 0 <= j < n.len() implies is_ident_char(#[trigger] n[j]) by {
        if j >= 1 {
            assert(('a' <= n[j] <= 'z') || ('A' <= n[j] <= 'Z') || ('0' <= n[j] <= '9') || n[j] == '_');
        }
    }
}

/// A name followed by `.` is read as one property link, whatever follows it:
/// the chain is that link followed by the chain read from after the dot.
pub proof fn lemma_name_dot_is_prop(n: Seq<char>, t: Seq<char>)
    requires
        is_name(n),
    ensures
        ({
            let s = n + seq!['.'] + t;
            let r = reduce_spec(t);
            reduce_spec(s) == (seq![SlotView::Prop(n)] + r.0, n.len() + 1 + r.1, r.2)
        }),
{
    let s = n + seq!['.'] + t;
    lemma_name_chars(n);
    assert(s =~= n + (seq!['.'] + t));
    lemma_ident_run_of(n, seq!['.'] + t);
    assert(s[0] == n[0]);
    assert(s[n.len() as int] == '.');
    assert(s.take(n.len() as int) =~= n);
    assert(s.skip(n.len() as int + 1) =~= t);
}

/// A name followed by `(`, text without parentheses, `)` and `.` is read as one
/// call link with that name and text, whatever follows it: the chain is that
/// link followed by the chain read from after the dot.
pub proof fn lemma_call_dot_is_method(n: Seq<char>, a: Seq<char>, t: Seq<char>)
    requires
        is_name(n),
        forall|j: int| 0 <= j < a.len() ==> #[trigger] a[j] != '(' && a[j] != ')',
    ensures
        ({
            let s = n + seq!['('] + a + seq![')', '.'] + t;
            let r = reduce_spec(t);
            reduce_spec(s) == (seq![SlotView::Method(n, a)] + r.0, n.len() + a.len() + 3 + r.1, r.2)
        }),
{
    let s = n + seq!['('] + a + seq![')', '.'] + t;
    lemma_name_chars(n);
    let x = seq!['('] + a + seq![')', '.'] + t;
    assert(s =~= n + x);
    lemma_ident_run_of(n, x);
    let k = n.len() as int;
    assert(s[0] == n[0]);
    assert(s[k] == '(');
    let y = seq![')', '.'] + t;
    assert(s.skip(k + 1) =~= a + y);
    lemma_args_run_of(a, y);
    let close = k + 1 + a.len();
    assert(s[close] == ')');
    assert(s[close + 1] == '.');
    assert(s.take(k) =~= n);
    assert(s.subrange(k + 1, close) =~= a);
    assert(s.skip(close + 2) =~= t);
}

/// Nothing of the input is lost: the call chain spans the first
/// `indentation` characters, and what remains is exactly the rest.
pub proof fn lemma_reduce_keeps_rest(s: Seq<char>)
    ensures
        reduce_spec(s).1 <= s.len(),
        reduce_spec(s).2 == s.skip(reduce_spec(s).1 as int),
    decreases s.len(),
{
    match match_link(s) {
        Some((slot, k)) => {
            if 0 < k <= s.len() {
                lemma_reduce_keeps_rest(s.skip(k as int));
                let r = reduce_spec(s.skip(k as int));
                assert(s.skip(k as int).skip(r.1 as int) =~= s.skip((k + r.1) as int));
            } else {
                assert(s.skip(0) =~= s);
            }
        },
        None => {
            assert(s.skip(0) =~= s);
        },
    }
}

/// Length of the run of name characters of `v` starting at `i`.
fn ident_run_at(v: &Vec<char>, i: usize) -> (r: usize)
    requires
        i <= v.len(),
    ensures
        r == ident_run(v@.skip(i as int)),
        i + r <= v.len(),
{
    let mut j = i;
    while j < v.len() && (is_alnum(v[j]) || v[j] == '_')
        invariant
            i <= j <= v.len(),
            ident_run(v@.skip(i as int)) == (j - i) + ident_run(v@.skip(j as int)),
        decreases v.len() - j,
    {
        assert(v@.skip(j as int).drop_first() == v@.skip(j + 1));
        j += 1;
    }
    j - i
}

/// Length of the run of non-parenthesis characters of `v` starting at `i`.
fn args_run_at(v: &Vec<char>, i: usize) -> (r: usize)
    requires
        i <= v.len(),
    ensures
        r == args_run(v@.skip(i as int)),
        i + r <= v.len(),
{
    let mut j = i;
    while j < v.len() && v[j] != '(' && v[j] != ')'
        invariant
            i <= j <= v.len(),
            args_run(v@.skip(i as int)) == (j - i) + args_run(v@.skip(j as int)),
        decreases v.len() - j,
    {
        assert(v@.skip(j as int).drop_first() == v@.skip(j + 1));
        j += 1;
    }
    j - i
}

fn sub_string(v: &Vec<char>, from: usize, to: usize) -> (r: String)
    requires
        from <= to <= v.len(),
    ensures
        r@ == v@.subrange(from as int, to as int),
{
    let mut out: Vec<char> = Vec::new();
    let mut k = from;
    while k < to
        invariant
            from <= k <= to <= v.len(),
            out@ == v@.subrange(from as int, k as int),
        decreases to - k,
    {
        out.push(v[k]);
        assert(v@.subrange(from as int, k + 1) == v@.subrange(from as int, k as int).push(
            v@[k as int],
        ));
        k += 1;
    }
    string_of(&out)
}

/// Matches one link at index `i` of `v`: the slot and the index after it.
fn match_link_at(v: &Vec<char>, i: usize) -> (r: Option<(ReduceExpressionResultSlot, usize)>)
    requires
        i <= v.len(),
    ensures
        match r {
            Some((slot, e)) => match_link(v@.skip(i as int)) == Some((slot@, (e - i) as nat))
                && i < e <= v.len(),
            None => match_link(v@.skip(i as int)) is None,
        },
{
    let ghost s = v@.skip(i as int);
    if i >= v.len() || !(is_alpha(v[i]) || v[i] == '_') {
        return None;
    }
    assert(s[0] == v@[i as int]);
    let n = ident_run_at(v, i);
    let name_end = i + n;
    assert(s.take(n as int) == v@.subrange(i as int, name_end as int));
    if name_end < v.len() && v[name_end] == '.' {
        assert(s[n as int] == v@[name_end as int]);
        let name = sub_string(v, i, name_end);
        return Some((ReduceExpressionResultSlot::Prop(name), name_end + 1));
    }
    if name_end < v.len() && v[name_end] == '(' {
        assert(s[n as int] == v@[name_end as int]);
        assert(s.skip(n + 1) == v@.skip(name_end + 1));
        let m = args_run_at(v, name_end + 1);
        let close = name_end + 1 + m;
        if close < v.len() && close + 1 < v.len() && v[close] == ')' && v[close + 1] == '.' {
            assert(s[(n + 1 + m) as int] == v@[close as int]);
            assert(s[(n + 2 + m) as int] == v@[close + 1]);
            assert(s.subrange(n + 1, n + 1 + m) == v@.subrange(name_end + 1, close as int));
            let name = sub_string(v, i, name_end);
            let args = sub_string(v, name_end + 1, close);
            return Some((ReduceExpressionResultSlot::Method(name, args), close + 2));
        }
        proof {
            if n + 1 + m + 1 < s.len() {
                assert(s[(n + 1 + m) as int] == v@[close as int]);
                assert(s[(n + 2 + m) as int] == v@[close + 1]);
            }
        }
        return None;
    }
    proof {
        if n < s.len() {
            assert(s[n as int] == v@[name_end as int]);
        }
    }
    None
}

/// Repeatedly strips `name(args).` or `name.` off the front of `input`, collecting
/// the links, until no link matches. Arguments may not contain parentheses, so
/// nested calls such as `f(g()).` end the chain.
pub fn reduce_expression(input: &str) -> (r: ReduceExpressionResult)
    ensures
        r.slots@.map_values(|s: ReduceExpressionResultSlot| s@) == reduce_spec(input@).0,
        r.indentation == reduce_spec(input@).1,
        r.remaining@ == reduce_spec(input@).2,
{
    let v = chars_of(input);
    let mut slots: Vec<ReduceExpressionResultSlot> = Vec::new();
    let mut i: usize = 0;
    let mut done = false;
    assert(v@.skip(0) == v@);
    assert(slots@.map_values(|s: ReduceExpressionResultSlot| s@) + reduce_spec(v@).0 =~= reduce_spec(v@).0);
    while !done
        invariant
            i <= v.len(),
            v@ == input@,
            reduce_spec(input@) == ({
                let r = reduce_spec(v@.skip(i as int));
                (slots@.map_values(|s: ReduceExpressionResultSlot| s@) + r.0, (i + r.1) as nat, r.2)
            }),
            done ==> match_link(v@.skip(i as int)) is None,
        decreases 2 * (v.len() - i) + (if done { 0int } else { 1int }),
    {
        match match_link_at(&v, i) {
            Some((slot, e)) => {
                let ghost s = v@.skip(i as int);
                assert(s.skip((e - i) as int) == v@.skip(e as int));
                let ghost before = slots@;
                slots.push(slot);
                assert(slots@.map_values(|s: ReduceExpressionResultSlot| s@) =~= before.map_values(
                    |s: ReduceExpressionResultSlot| s@,
                ).push(slot@));
                assert(reduce_spec(s).0 =~= seq![slot@] + reduce_spec(v@.skip(e as int)).0);
                i = e;
            },
            None => {
                done = true;
            },
        }
    }
    let remaining = sub_string(&v, i, v.len());
    assert(v@.subrange(i as int, v.len() as int) == v@.skip(i as int));
    assert(v@.skip(0) == v@);
    ReduceExpressionResult { slots, indentation: i, remaining }
}

/// `s` cut at every `c` (what `str::split` with a character yields): one piece
/// more than there are `c`s, pieces possibly empty.
pub open spec fn split_at_char(s: Seq<char>, c: char) -> Seq<Seq<char>>
    decreases s.len(),
{
    if s.len() == 0 {
        seq![seq![]]
    } else {
        let p = split_at_char(s.drop_last(), c);
        if s.last() == c {
            p.push(seq![])
        } else {
            p.update(p.len() - 1, p.last().push(s.last()))
        }
    }
}

pub proof fn lemma_split_nonempty(s: Seq<char>, c: char)
    ensures
        split_at_char(s, c).len() > 0,
    decreases s.len(),
{
    if s.len() > 0 {
        lemma_split_nonempty(s.drop_last(), c);
    }
}

/// The pieces joined with `sep` between them.
pub open spec fn join_sep(pieces: Seq<Seq<char>>, sep: Seq<char>) -> Seq<char>
    decreases pieces.len(),
{
    if pieces.len() == 0 {
        seq![]
    } else if pieces.len() == 1 {
        pieces[0]
    } else {
        join_sep(pieces.drop_last(), sep) + sep + pieces.last()
    }
}

/// The statements of a console expression: the pieces between `;`s, without
/// leading whitespace, leaving out empty ones.
pub open spec fn statements(code: Seq<char>) -> Seq<Seq<char>> {
    split_at_char(code, ';').map_values(|p: Seq<char>| trim_start_spec(p)).filter(
        |p: Seq<char>| p.len() > 0,
    )
}

pub(crate) fn split_chars(v: &Vec<char>, c: char) -> (r: Vec<Vec<char>>)
    ensures
        r@.map_values(|p: Vec<char>| p@) == split_at_char(v@, c),
{
    let mut out: Vec<Vec<char>> = Vec::new();
    out.push(Vec::new());
    assert(out@.map_values(|p: Vec<char>| p@) =~= split_at_char(v@.take(0), c));
    for i in 0..v.len()
        invariant
            out@.map_values(|p: Vec<char>| p@) == split_at_char(v@.take(i as int), c),
    {
        proof {
            lemma_split_nonempty(v@.take(i as int), c);
        }
        let ghost next = v@.take(i + 1);
        assert(next.drop_last() =~= v@.take(i as int));
        assert(next.last() == v@[i as int]);
        let ghost before = out@;
        if v[i] == c {
            out.push(Vec::new());
            assert(out@.map_values(|p: Vec<char>| p@) =~= before.map_values(|p: Vec<char>| p@).push(seq![]));
        } else {
            let mut last = out.pop().unwrap();
            last.push(v[i]);
            out.push(last);
            assert(out@.map_values(|p: Vec<char>| p@) =~= before.map_values(|p: Vec<char>| p@).update(
                before.len() - 1,
                before.last()@.push(v@[i as int]),
            ));
        }
    }
    assert(v@.take(v.len() as int) =~= v@);
    out
}

/// The statements of `code`, in order.
pub fn split_statements(code: &str) -> (r: Vec<Vec<char>>)
    ensures
        r@.map_values(|p: Vec<char>| p@) == statements(code@),
{
    let pieces = split_chars(&chars_of(code), ';');
    let ghost ps = pieces@.map_values(|p: Vec<char>| p@);
    let ghost tr = ps.map_values(|p: Seq<char>| trim_start_spec(p));
    let mut out: Vec<Vec<char>> = Vec::new();
    for k in 0..pieces.len()
        invariant
            ps == pieces@.map_values(|p: Vec<char>| p@),
            tr == ps.map_values(|p: Seq<char>| trim_start_spec(p)),
            out@.map_values(|p: Vec<char>| p@) == tr.take(k as int).filter(|p: Seq<char>| p.len() > 0),
    {
        let t = trim_start_chars(&pieces[k]);
        assert(tr.take(k + 1).drop_last() =~= tr.take(k as int));
        assert(tr.take(k + 1).last() == t@);
        reveal_with_fuel(Seq::filter, 1);
        let ghost before = out@;
        if t.len() > 0 {
            out.push(t);
            assert(out@.map_values(|p: Vec<char>| p@) =~= before.map_values(|p: Vec<char>| p@).push(t@));
        }
    }
    assert(tr.take(pieces.len() as int) =~= tr);
    out
}

/// Joins the pieces with `sep` between them.
pub fn join_chars(pieces: &Vec<Vec<char>>, count: usize, sep: &str) -> (r: Vec<char>)
    requires
        count <= pieces.len(),
    ensures
        r@ == join_sep(pieces@.map_values(|p: Vec<char>| p@).take(count as int), sep@),
{
    let sv = chars_of(sep);
    let ghost ps = pieces@.map_values(|p: Vec<char>| p@);
    let mut out: Vec<char> = Vec::new();
    for k in 0..count
        invariant
            count <= pieces.len(),
            sv@ == sep@,
            ps == pieces@.map_values(|p: Vec<char>| p@),
            out@ == join_sep(ps.take(k as int), sep@),
    {
        let ghost ws = ps.take(k + 1);
        assert(ws.drop_last() =~= ps.take(k as int));
        assert(ws.last() == pieces@[k as int]@);
        let ghost before = out@;
        if k > 0 {
            let mut m: usize = 0;
            while m < sv.len()
                invariant
                    m <= sv.len(),
                    out@ == before + sv@.take(m as int),
                decreases sv.len() - m,
            {
                out.push(sv[m]);
                assert(sv@.take(m + 1) == sv@.take(m as int).push(sv@[m as int]));
                assert(out@ =~= before + sv@.take(m + 1));
                m += 1;
            }
            assert(sv@.take(sv.len() as int) =~= sv@);
        }
        let ghost mid = out@;
        let p = &pieces[k];
        let mut m: usize = 0;
        while m < p.len()
            invariant
                m <= p.len(),
                out@ == mid + p@.take(m as int),
            decreases p.len() - m,
        {
            out.push(p[m]);
            assert(p@.take(m + 1) == p@.take(m as int).push(p@[m as int]));
            assert(out@ =~= mid + p@.take(m + 1));
            m += 1;
        }
        assert(p@.take(p.len() as int) =~= p@);
        assert(out@ =~= join_sep(ws, sep@));
    }
    out
}

/// The annotations that silence the engine's warnings about generated code.
pub open spec fn warning_attributes() -> Seq<char> {
    "\t@warning_ignore_start(\"unused_variable\")\n\t@warning_ignore_start(\"unused_parameter\")\n\t@warning_ignore_start(\"return_value_discarded\")\n\t@warning_ignore_start(\"shadowed_variable\")\n\t@warning_ignore_start(\"integer_division\")"@
}

/// `var name = get_meta("name")`, which makes a console variable usable by name.
pub open spec fn meta_line(name: Seq<char>) -> Seq<char> {
    "var "@ + name + " = get_meta(\""@ + name + "\")"@
}

/// A script of class `class` with one function `function` whose body declares
/// the console variables and then runs `body`.
pub open spec fn script_source(class: Seq<char>, function: Seq<char>, metas: Seq<Seq<char>>, body: Seq<char>) -> Seq<char> {
    "extends "@ + class + "\n\nfunc "@ + function + "():\n"@ + warning_attributes() + "\n\t"@
        + join_sep(metas.map_values(|m: Seq<char>| meta_line(m)), "\n\t"@) + "\n\t"@ + body + "\n"@
}

/// The two scripts tried for an expression: one that returns the value of the
/// last statement, and one that only runs it.
pub struct EvalSources {
    pub as_expression: String,
    pub as_statement: String,
}

/// The body that runs the statements; with `ret`, the last one's value is returned.
pub open spec fn script_body(st: Seq<Seq<char>>, ret: bool) -> Seq<char> {
    let prefix = join_sep(st.drop_last(), "\n\t"@);
    let last = if ret {
        "return "@ + st.last()
    } else {
        st.last()
    };
    if st.len() == 1 {
        last
    } else {
        prefix + "\n\t"@ + last
    }
}

/// The lines, each on a line of its own after one tab: `\n\t` before each.
pub open spec fn tabbed_lines(lines: Seq<Seq<char>>) -> Seq<char>
    decreases lines.len(),
{
    if lines.len() == 0 {
        seq![]
    } else {
        tabbed_lines(lines.drop_last()) + "\n\t"@ + lines.last()
    }
}

proof fn lemma_join_tabbed(p: Seq<Seq<char>>)
    requires
        p.len() > 0,
    ensures
        "\n\t"@ + join_sep(p, "\n\t"@) == tabbed_lines(p),
    decreases p.len(),
{
    if p.len() == 1 {
        assert(p.drop_last() =~= Seq::<Seq<char>>::empty());
        assert(tabbed_lines(p.drop_last()) =~= Seq::<char>::empty());
        assert("\n\t"@ + join_sep(p, "\n\t"@) =~= tabbed_lines(p));
    } else {
        lemma_join_tabbed(p.drop_last());
        assert("\n\t"@ + join_sep(p, "\n\t"@) =~= ("\n\t"@ + join_sep(p.drop_last(), "\n\t"@)) + "\n\t"@
            + p.last());
    }
}

/// Every statement is run on a line of its own, after exactly one tab, in
/// order; with `ret`, the last one is returned.
pub proof fn lemma_script_body_lines(st: Seq<Seq<char>>, ret: bool)
    requires
        st.len() > 0,
    ensures
        "\n\t"@ + script_body(st, ret) == tabbed_lines(
            st.drop_last().push(
                if ret {
                    "return "@ + st.last()
                } else {
                    st.last()
                },
            ),
        ),
{
    let last = if ret {
        "return "@ + st.last()
    } else {
        st.last()
    };
    let lines = st.drop_last().push(last);
    assert(lines.drop_last() =~= st.drop_last());
    if st.len() == 1 {
        assert(st.drop_last() =~= Seq::<Seq<char>>::empty());
        assert(tabbed_lines(st.drop_last()) =~= Seq::<char>::empty());
        assert("\n\t"@ + script_body(st, ret) =~= tabbed_lines(lines));
    } else {
        lemma_join_tabbed(st.drop_last());
        assert("\n\t"@ + script_body(st, ret) =~= ("\n\t"@ + join_sep(st.drop_last(), "\n\t"@)) + "\n\t"@
            + last);
    }
}

/// Builds the scripts that evaluate a console expression: the statements
/// (separated by `;`) become the body of function `function` of a script of
/// class `class`, after one declaration per console variable. An expression
/// without statements is the error `Empty expression`.
pub fn build_eval_sources(code: &str, meta_names: &Vec<String>, class: &str, function: &str) -> (r: Result<
    EvalSources,
    String,
>)
    ensures
        match r {
            Err(m) => statements(code@).len() == 0 && m@ == "Empty expression"@,
            Ok(e) => statements(code@).len() > 0 && e.as_expression@ == script_source(
                class@,
                function@,
                crate::text::views(meta_names@),
                script_body(statements(code@), true),
            ) && e.as_statement@ == script_source(
                class@,
                function@,
                crate::text::views(meta_names@),
                script_body(statements(code@), false),
            ),
        },
{
    let st = split_statements(code);
    let n = st.len();
    if n == 0 {
        return Err(String::from_str("Empty expression"));
    }
    let ghost sv = st@.map_values(|p: Vec<char>| p@);
    assert(sv.drop_last() =~= sv.take(n - 1));
    let prefix = join_chars(&st, n - 1, "\n\t");
    let last = string_of(&st[n - 1]);
    assert(sv.last() == st@[n - 1]@);
    let ret_last = concat("return ", last.as_str());
    let (expr_body, stmt_body) = if n == 1 {
        (ret_last, last)
    } else {
        let p = string_of(&prefix);
        let a = concat(p.as_str(), "\n\t");
        (concat(a.as_str(), ret_last.as_str()), concat(a.as_str(), last.as_str()))
    };
    let mut metas: Vec<Vec<char>> = Vec::new();
    for k in 0..meta_names.len()
        invariant
            metas@.map_values(|p: Vec<char>| p@) == crate::text::views(meta_names@).take(k as int).map_values(
                |m: Seq<char>| meta_line(m),
            ),
    {
        let m = meta_names[k].as_str();
        let a = concat("var ", m);
        let b = concat(a.as_str(), " = get_meta(\"");
        let c = concat(b.as_str(), m);
        let d = concat(c.as_str(), "\")");
        let ghost before = metas@;
        let line = chars_of(d.as_str());
        assert(line@ == meta_line(meta_names@[k as int]@));
        metas.push(line);
        proof {
            let names = crate::text::views(meta_names@);
            assert(names.take(k + 1) =~= names.take(k as int).push(meta_names@[k as int]@));
            assert(metas@ == before.push(line));
            assert(metas@.map_values(|p: Vec<char>| p@) =~= before.map_values(|p: Vec<char>| p@).push(line@));
            assert(names.take(k + 1).map_values(|m: Seq<char>| meta_line(m)) =~= names.take(k as int).map_values(
                |m: Seq<char>| meta_line(m),
            ).push(meta_line(meta_names@[k as int]@)));
        }
    }
    assert(crate::text::views(meta_names@).take(meta_names.len() as int) =~= crate::text::views(meta_names@));
    let metas_text = string_of(&join_chars(&metas, metas.len(), "\n\t"));
    assert(metas@.map_values(|p: Vec<char>| p@).take(metas.len() as int) =~= metas@.map_values(|p: Vec<char>| p@));
    let head = {
        let a = concat("extends ", class);
        let b = concat(a.as_str(), "\n\nfunc ");
        let c = concat(b.as_str(), function);
        let d = concat(c.as_str(), "():\n");
        let e = concat(
            d.as_str(),
            "\t@warning_ignore_start(\"unused_variable\")\n\t@warning_ignore_start(\"unused_parameter\")\n\t@warning_ignore_start(\"return_value_discarded\")\n\t@warning_ignore_start(\"shadowed_variable\")\n\t@warning_ignore_start(\"integer_division\")",
        );
        let f = concat(e.as_str(), "\n\t");
        let g = concat(f.as_str(), metas_text.as_str());
        concat(g.as_str(), "\n\t")
    };
    let x = concat(head.as_str(), expr_body.as_str());
    let y = concat(head.as_str(), stmt_body.as_str());
    Ok(EvalSources { as_expression: concat(x.as_str(), "\n"), as_statement: concat(y.as_str(), "\n") })
}

} // verus!
