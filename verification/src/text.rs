//! Character classes and the string primitives the console builds on.
//!
//! Text is handled as sequences of `char`s (the view of a `String`).

use vstd::prelude::*;

verus! {

/// Appending one character to a `String` extends its view by that character.
pub assume_specification[ std::string::String::push ](s: &mut std::string::String, ch: char)
    ensures
        final(s)@ == old(s)@.push(ch),
;

/// The Unicode code point of a character.
pub open spec fn code(c: char) -> u32 {
    c as u32
}

/// Unicode `White_Space` property (what `char::is_whitespace` tests).
pub open spec fn is_ws(c: char) -> bool {
    let u = code(c);
    ||| (0x09 <= u && u <= 0x0D)
    ||| u == 0x20
    ||| u == 0x85
    ||| u == 0xA0
    ||| u == 0x1680
    ||| (0x2000 <= u && u <= 0x200A)
    ||| u == 0x2028
    ||| u == 0x2029
    ||| u == 0x202F
    ||| u == 0x205F
    ||| u == 0x3000
}

/// Unicode general category `Cc` (what `char::is_control` tests).
pub open spec fn is_control_char(c: char) -> bool {
    let u = code(c);
    u <= 0x1F || (0x7F <= u && u <= 0x9F)
}

pub open spec fn is_ascii_alpha(c: char) -> bool {
    ('a' <= c && c <= 'z') || ('A' <= c && c <= 'Z')
}

pub open spec fn is_ascii_digit(c: char) -> bool {
    '0' <= c && c <= '9'
}

pub open spec fn is_ascii_alnum(c: char) -> bool {
    is_ascii_alpha(c) || is_ascii_digit(c)
}

/// Whether `c` is whitespace.
pub fn is_whitespace(c: char) -> (r: bool)
    ensures
        r == is_ws(c),
{
    let u = c as u32;
    (0x09 <= u && u <= 0x0D) || u == 0x20 || u == 0x85 || u == 0xA0 || u == 0x1680 || (0x2000
        <= u && u <= 0x200A) || u == 0x2028 || u == 0x2029 || u == 0x202F || u == 0x205F || u
        == 0x3000
}

/// Whether `c` is a control character.
pub fn is_control(c: char) -> (r: bool)
    ensures
        r == is_control_char(c),
{
    let u = c as u32;
    u <= 0x1F || (0x7F <= u && u <= 0x9F)
}

pub fn is_alpha(c: char) -> (r: bool)
    ensures
        r == is_ascii_alpha(c),
{
    ('a' <= c && c <= 'z') || ('A' <= c && c <= 'Z')
}

pub fn is_alnum(c: char) -> (r: bool)
    ensures
        r == is_ascii_alnum(c),
{
    ('a' <= c && c <= 'z') || ('A' <= c && c <= 'Z') || ('0' <= c && c <= '9')
}

/// The characters of a string slice.
pub fn chars_of(s: &str) -> (r: Vec<char>)
    ensures
        r@ == s@,
{
    let mut out: Vec<char> = Vec::new();
    for c in it: s.chars()
        invariant
            out@ == it.seq().take(it.index() as int),
            it.seq() == s@,
    {
        out.push(c);
    }
    out
}

/// A string made of the given characters.
pub fn string_of(v: &Vec<char>) -> (r: String)
    ensures
        r@ == v@,
{
    let mut s = String::new();
    for i in 0..v.len()
        invariant
            s@ == v@.take(i as int),
    {
        s.push(v[i]);
        assert(v@.take(i + 1) == v@.take(i as int).push(v@[i as int]));
    }
    assert(v@.take(v.len() as int) == v@);
    s
}

/// The views of a sequence of strings.
pub open spec fn views(v: Seq<String>) -> Seq<Seq<char>> {
    v.map_values(|s: String| s@)
}

/// Unicode lower-casing of a character sequence, as `str::to_lowercase` computes it.
pub uninterp spec fn lowercase(s: Seq<char>) -> Seq<char>;

/// Calls `str::to_lowercase`: its result depends on the characters of `s` alone.
#[verifier::external_body]
pub(crate) fn to_lowercase(s: &str) -> (r: String)
    ensures
        r@ == lowercase(s@),
{
    s.to_lowercase()
}

/// Unicode upper-casing of a character sequence, as `str::to_uppercase` computes it.
pub uninterp spec fn uppercase(s: Seq<char>) -> Seq<char>;

/// Calls `str::to_uppercase`: its result depends on the characters of `s` alone.
#[verifier::external_body]
pub(crate) fn to_uppercase(s: &str) -> (r: String)
    ensures
        r@ == uppercase(s@),
{
    s.to_uppercase()
}

/// A copy of each string, in order.
pub fn copy_strings(v: &Vec<String>) -> (r: Vec<String>)
    ensures
        views(r@) == views(v@),
{
    let mut out: Vec<String> = Vec::new();
    for k in 0..v.len()
        invariant
            views(out@) == views(v@).take(k as int),
    {
        let ghost before = out@;
        out.push(v[k].clone());
        assert(views(out@) =~= views(before).push(v@[k as int]@));
        assert(views(v@).take(k + 1) =~= views(v@).take(k as int).push(v@[k as int]@));
    }
    assert(views(v@).take(v.len() as int) =~= views(v@));
    out
}

/// `p` is a prefix of `s`.
pub open spec fn has_prefix(s: Seq<char>, p: Seq<char>) -> bool {
    p.len() <= s.len() && s.take(p.len() as int) == p
}

/// `p` occurs in `s` starting at index `i`.
pub open spec fn occurs_at(s: Seq<char>, p: Seq<char>, i: int) -> bool {
    0 <= i && i + p.len() <= s.len() && s.subrange(i, i + p.len()) == p
}

/// `p` occurs somewhere in `s`.
pub open spec fn has_infix(s: Seq<char>, p: Seq<char>) -> bool {
    exists|i: int| occurs_at(s, p, i)
}

/// Does `p` occur in `s` at index `i`?
pub fn matches_at(s: &Vec<char>, p: &Vec<char>, i: usize) -> (r: bool)
    ensures
        r == occurs_at(s@, p@, i as int),
{
    if i > s.len() || p.len() > s.len() - i {
        return false;
    }
    let mut k: usize = 0;
    while k < p.len()
        invariant
            i + p.len() <= s.len(),
            k <= p.len(),
            forall|j: int| 0 <= j < k ==> s@[i + j] == p@[j],
        decreases p.len() - k,
    {
        if s[i + k] != p[k] {
            assert(s@.subrange(i as int, i + p.len())[k as int] != p@[k as int]);
            return false;
        }
        k += 1;
    }
    assert(s@.subrange(i as int, i + p.len()) =~= p@);
    true
}

/// Does `s` start with `p`?
pub fn starts_with(s: &Vec<char>, p: &Vec<char>) -> (r: bool)
    ensures
        r == has_prefix(s@, p@),
{
    let r = matches_at(s, p, 0);
    proof {
        if p@.len() <= s@.len() {
            assert(s@.subrange(0, p@.len() as int) == s@.take(p@.len() as int));
        }
    }
    r
}

/// The first index at or after `from` where `p` occurs in `s`.
pub fn find_from(s: &Vec<char>, p: &Vec<char>, from: usize) -> (r: Option<usize>)
    ensures
        match r {
            Some(i) => from <= i && occurs_at(s@, p@, i as int) && forall|j: int|
                from <= j < i ==> !occurs_at(s@, p@, j),
            None => forall|j: int| from <= j ==> !occurs_at(s@, p@, j),
        },
{
    if from > s.len() {
        return None;
    }
    let mut i = from;
    while i < s.len()
        invariant
            from <= i <= s.len(),
            forall|j: int| from <= j < i ==> !occurs_at(s@, p@, j),
        decreases s.len() - i,
    {
        if matches_at(s, p, i) {
            return Some(i);
        }
        i += 1;
    }
    if matches_at(s, p, i) {
        return Some(i);
    }
    None
}

/// Does `p` occur somewhere in `s`?
pub fn contains(s: &Vec<char>, p: &Vec<char>) -> (r: bool)
    ensures
        r == has_infix(s@, p@),
{
    match find_from(s, p, 0) {
        Some(i) => true,
        None => {
            assert forall|j: int| !occurs_at(s@, p@, j) by {
                if j < 0 {
                }
            }
            false
        },
    }
}

/// `s` with its leading whitespace removed (as `str::trim_start` does).
pub open spec fn trim_start_spec(s: Seq<char>) -> Seq<char>
    decreases s.len(),
{
    if s.len() > 0 && is_ws(s[0]) {
        trim_start_spec(s.drop_first())
    } else {
        s
    }
}

/// `s` with its trailing whitespace removed (as `str::trim_end` does).
pub open spec fn trim_end_spec(s: Seq<char>) -> Seq<char>
    decreases s.len(),
{
    if s.len() > 0 && is_ws(s.last()) {
        trim_end_spec(s.drop_last())
    } else {
        s
    }
}

/// `s` with whitespace removed at both ends (as `str::trim` does).
pub open spec fn trim_spec(s: Seq<char>) -> Seq<char> {
    trim_end_spec(trim_start_spec(s))
}

pub fn trim_start_chars(v: &Vec<char>) -> (r: Vec<char>)
    ensures
        r@ == trim_start_spec(v@),
{
    let mut i: usize = 0;
    assert(v@.skip(0) == v@);
    while i < v.len() && is_whitespace(v[i])
        invariant
            i <= v.len(),
            trim_start_spec(v@) == trim_start_spec(v@.skip(i as int)),
        decreases v.len() - i,
    {
        assert(v@.skip(i as int).drop_first() == v@.skip(i + 1));
        i += 1;
    }
    let mut out: Vec<char> = Vec::new();
    let mut k = i;
    while k < v.len()
        invariant
            i <= k <= v.len(),
            out@ == v@.subrange(i as int, k as int),
        decreases v.len() - k,
    {
        out.push(v[k]);
        assert(v@.subrange(i as int, k + 1) == v@.subrange(i as int, k as int).push(v@[k as int]));
        k += 1;
    }
    assert(out@ == v@.skip(i as int));
    out
}

pub fn trim_end_chars(v: &Vec<char>) -> (r: Vec<char>)
    ensures
        r@ == trim_end_spec(v@),
{
    let mut n: usize = v.len();
    assert(v@.take(n as int) == v@);
    while n > 0 && is_whitespace(v[n - 1])
        invariant
            n <= v.len(),
            trim_end_spec(v@) == trim_end_spec(v@.take(n as int)),
        decreases n,
    {
        assert(v@.take(n as int).drop_last() == v@.take(n - 1));
        n -= 1;
    }
    let mut out: Vec<char> = Vec::new();
    let mut k: usize = 0;
    while k < n
        invariant
            k <= n <= v.len(),
            out@ == v@.take(k as int),
        decreases n - k,
    {
        out.push(v[k]);
        assert(v@.take(k + 1) == v@.take(k as int).push(v@[k as int]));
        k += 1;
    }
    out
}

/// `s.trim_start()`.
pub fn trim_start(s: &str) -> (r: String)
    ensures
        r@ == trim_start_spec(s@),
{
    string_of(&trim_start_chars(&chars_of(s)))
}

/// `s.trim()`.
pub fn trim(s: &str) -> (r: String)
    ensures
        r@ == trim_spec(s@),
{
    string_of(&trim_end_chars(&trim_start_chars(&chars_of(s))))
}

/// The maximal runs of non-whitespace characters of `s`, in order
/// (what `str::split_whitespace` yields).
pub open spec fn words(s: Seq<char>) -> Seq<Seq<char>>
    decreases s.len(),
{
    if s.len() == 0 {
        seq![]
    } else {
        let w = words(s.drop_last());
        let c = s.last();
        if is_ws(c) {
            w
        } else if s.len() >= 2 && !is_ws(s[s.len() - 2]) {
            w.update(w.len() - 1, w.last().push(c))
        } else {
            w.push(seq![c])
        }
    }
}

/// A sequence that ends in a non-whitespace character has at least one word.
pub proof fn lemma_words_nonempty(s: Seq<char>)
    requires
        s.len() > 0,
        !is_ws(s.last()),
    ensures
        words(s).len() > 0,
    decreases s.len(),
{
    if s.len() >= 2 && !is_ws(s[s.len() - 2]) {
        let t = s.drop_last();
        assert(t.last() == s[s.len() - 2]);
        lemma_words_nonempty(t);
    }
}

/// Every word is non-empty and free of whitespace.
pub proof fn lemma_words_wellformed(s: Seq<char>)
    ensures
        forall|k: int| 0 <= k < words(s).len() ==> words(s)[k].len() > 0,
        forall|k: int, j: int|
            0 <= k < words(s).len() && 0 <= j < words(s)[k].len() ==> !is_ws(#[trigger] words(s)[k][j]),
    decreases s.len(),
{
    if s.len() > 0 {
        lemma_words_wellformed(s.drop_last());
        if !is_ws(s.last()) && s.len() >= 2 && !is_ws(s[s.len() - 2]) {
            let t = s.drop_last();
            assert(t.last() == s[s.len() - 2]);
            lemma_words_nonempty(t);
        }
    }
}

fn words_chars(v: &Vec<char>) -> (r: Vec<Vec<char>>)
    ensures
        r@.map_values(|w: Vec<char>| w@) == words(v@),
{
    let mut out: Vec<Vec<char>> = Vec::new();
    let mut i: usize = 0;
    while i < v.len()
        invariant
            i <= v.len(),
            out@.map_values(|w: Vec<char>| w@) == words(v@.take(i as int)),
        decreases v.len() - i,
    {
        let c = v[i];
        let ghost pre = v@.take(i as int);
        let ghost next = v@.take(i + 1);
        assert(next.drop_last() == pre);
        assert(next.last() == c);
        if is_whitespace(c) {
        } else if i > 0 && !is_whitespace(v[i - 1]) {
            assert(next[next.len() - 2] == v@[i - 1]);
            assert(pre.last() == v@[i - 1]);
            proof {
                lemma_words_nonempty(pre);
            }
            let mut last = out.pop().unwrap();
            last.push(c);
            out.push(last);
        } else {
            let mut w: Vec<char> = Vec::new();
            w.push(c);
            out.push(w);
        }
        i += 1;
    }
    assert(v@.take(v.len() as int) == v@);
    out
}

/// Splits a console line at every run of whitespace.
///
/// Quotes have no special meaning: `a "b c"` gives `a`, `"b`, `c"`.
pub fn split_console_whitespace(line: &str) -> (r: Vec<String>)
    ensures
        views(r@) == words(line@),
{
    let ws = words_chars(&chars_of(line));
    let mut out: Vec<String> = Vec::new();
    for k in 0..ws.len()
        invariant
            views(out@) == ws@.map_values(|w: Vec<char>| w@).take(k as int),
    {
        let s = string_of(&ws[k]);
        let ghost before = out@;
        out.push(s);
        assert(out@ == before.push(s));
        assert(views(out@) =~= views(before).push(s@));
        assert(ws@.map_values(|w: Vec<char>| w@).take(k + 1) =~= ws@.map_values(|w: Vec<char>| w@).take(
            k as int,
        ).push(ws@[k as int]@));
    }
    assert(ws@.map_values(|w: Vec<char>| w@).take(ws.len() as int) == ws@.map_values(
        |w: Vec<char>| w@,
    ));
    out
}

/// Number of bytes of the UTF-8 encoding of `c` (what `char::len_utf8` returns).
pub open spec fn utf8_len(c: char) -> nat {
    if code(c) < 0x80 {
        1
    } else if code(c) < 0x800 {
        2
    } else if code(c) < 0x10000 {
        3
    } else {
        4
    }
}

/// Number of bytes of the UTF-8 encoding of `s`.
pub open spec fn byte_len(s: Seq<char>) -> nat
    decreases s.len(),
{
    if s.len() == 0 {
        0
    } else {
        byte_len(s.drop_last()) + utf8_len(s.last())
    }
}

pub proof fn lemma_byte_len_prefix(s: Seq<char>, i: int)
    requires
        0 <= i <= s.len(),
    ensures
        byte_len(s.take(i)) <= byte_len(s),
    decreases s.len(),
{
    if i < s.len() {
        assert(s.drop_last().take(i) == s.take(i));
        lemma_byte_len_prefix(s.drop_last(), i);
    } else {
        assert(s.take(i) == s);
    }
}

fn char_utf8_len(c: char) -> (r: usize)
    ensures
        r == utf8_len(c),
{
    let u = c as u32;
    if u < 0x80 {
        1
    } else if u < 0x800 {
        2
    } else if u < 0x10000 {
        3
    } else {
        4
    }
}

/// Byte offsets at which the words of `s` that are followed by whitespace end.
pub open spec fn closed_word_ends(s: Seq<char>) -> Seq<int>
    decreases s.len(),
{
    if s.len() == 0 {
        seq![]
    } else {
        let p = closed_word_ends(s.drop_last());
        if is_ws(s.last()) && s.len() >= 2 && !is_ws(s[s.len() - 2]) {
            p.push(byte_len(s.drop_last()) as int)
        } else {
            p
        }
    }
}

/// The end offsets of the words of `s`, where trailing whitespace counts as
/// one more (empty) word ending at the end of `s`.
pub open spec fn word_ends(s: Seq<char>) -> Seq<int> {
    if s.len() > 0 {
        closed_word_ends(s).push(byte_len(s) as int)
    } else {
        seq![]
    }
}

/// Where completions of the last word of `s` start: two bytes past the end of
/// the second-to-last word, or 1 when `s` has fewer than two words.
pub open spec fn second_to_last_word_end_spec(s: Seq<char>) -> int {
    let e = word_ends(s);
    if e.len() < 2 {
        1
    } else {
        e[e.len() - 2] + 2
    }
}

/// The byte length of the input rounded down to the end of its second-to-last
/// word, plus two.
pub fn second_to_last_word_end(s: &str) -> (r: usize)
    requires
        byte_len(s@) + 2 <= usize::MAX,
    ensures
        r == second_to_last_word_end_spec(s@),
{
    let v = chars_of(s);
    let mut ends: Vec<usize> = Vec::new();
    let mut in_word = false;
    let mut off: usize = 0;
    let mut i: usize = 0;
    while i < v.len()
        invariant
            i <= v.len(),
            v@ == s@,
            byte_len(s@) + 2 <= usize::MAX,
            ends@.map_values(|e: usize| e as int) == closed_word_ends(v@.take(i as int)),
            in_word == (i > 0 && !is_ws(v@[i - 1])),
            off == byte_len(v@.take(i as int)),
        decreases v.len() - i,
    {
        let c = v[i];
        let ghost pre = v@.take(i as int);
        let ghost next = v@.take(i + 1);
        assert(next.drop_last() == pre);
        assert(next.last() == c);
        proof {
            lemma_byte_len_prefix(v@, i + 1);
        }
        if !is_whitespace(c) {
            in_word = true;
        } else {
            if in_word {
                assert(next[next.len() - 2] == v@[i - 1]);
                let ghost before = ends@;
                ends.push(off);
                assert(ends@.map_values(|e: usize| e as int) =~= before.map_values(
                    |e: usize| e as int,
                ).push(off as int));
                in_word = false;
            } else {
                if i > 0 {
                    assert(next[next.len() - 2] == v@[i - 1]);
                }
            }
        }
        off = off + char_utf8_len(c);
        i += 1;
    }
    assert(v@.take(v.len() as int) == v@);
    if v.len() > 0 {
        let ghost before = ends@;
        ends.push(off);
        assert(ends@.map_values(|e: usize| e as int) =~= before.map_values(|e: usize| e as int).push(
            off as int,
        ));
    }
    if ends.len() < 2 {
        return 1;
    }
    let k = ends.len() - 2;
    assert(ends@.map_values(|e: usize| e as int)[k as int] == ends@[k as int] as int);
    proof {
        // every recorded end lies within the string
        assert(ends@[k as int] <= byte_len(s@)) by {
            lemma_closed_word_ends_bounded(s@);
        }
    }
    ends[k] + 2
}

/// Every end offset lies within the string.
pub proof fn lemma_closed_word_ends_bounded(s: Seq<char>)
    ensures
        forall|k: int| 0 <= k < word_ends(s).len() ==> 0 <= #[trigger] word_ends(s)[k] <= byte_len(s),
    decreases s.len(),
{
    lemma_closed_ends_bounded(s);
}

proof fn lemma_closed_ends_bounded(s: Seq<char>)
    ensures
        forall|k: int| 0 <= k < closed_word_ends(s).len() ==> 0 <= #[trigger] closed_word_ends(s)[k] <= byte_len(s),
    decreases s.len(),
{
    if s.len() > 0 {
        let t = s.drop_last();
        lemma_closed_ends_bounded(t);
        assert(byte_len(t) <= byte_len(s));
        let p = closed_word_ends(t);
        assert forall|k: int| 0 <= k < closed_word_ends(s).len() implies 0 <= #[trigger] closed_word_ends(s)[k] <= byte_len(s) by {
            if k < p.len() {
                assert(closed_word_ends(s)[k] == p[k]);
            }
        }
    }
}

/// `s` padded with spaces or cut to exactly `n` characters.
pub open spec fn fit_to_width_spec(s: Seq<char>, n: nat) -> Seq<char> {
    if s.len() >= n {
        s.take(n as int)
    } else {
        s + Seq::new((n - s.len()) as nat, |_i: int| ' ')
    }
}

/// What `format!("{:<1$.1$}", s, n)` produces: `s` left-aligned in a field of
/// exactly `n` characters.
pub fn fit_to_width(s: &str, n: usize) -> (r: String)
    ensures
        r@ == fit_to_width_spec(s@, n as nat),
{
    let v = chars_of(s);
    let mut out: Vec<char> = Vec::new();
    let mut k: usize = 0;
    while k < n
        invariant
            k <= n,
            v@ == s@,
            out@ == fit_to_width_spec(v@, n as nat).take(k as int),
        decreases n - k,
    {
        let c = if k < v.len() {
            v[k]
        } else {
            ' '
        };
        assert(fit_to_width_spec(v@, n as nat)[k as int] == c);
        out.push(c);
        assert(out@ =~= fit_to_width_spec(v@, n as nat).take(k + 1));
        k += 1;
    }
    assert(fit_to_width_spec(v@, n as nat).take(n as int) =~= fit_to_width_spec(v@, n as nat));
    string_of(&out)
}

/// Tabs become spaces and every other control character is dropped.
pub open spec fn sanitize_spec(s: Seq<char>) -> Seq<char>
    decreases s.len(),
{
    if s.len() == 0 {
        seq![]
    } else {
        let c = if s.last() == '\t' {
            ' '
        } else {
            s.last()
        };
        let rest = sanitize_spec(s.drop_last());
        if is_control_char(c) {
            rest
        } else {
            rest.push(c)
        }
    }
}

/// Cleans an expression before it is evaluated: tabs become spaces and other
/// control characters (newlines among them) are removed.
pub fn sanitize_code(code: &str) -> (r: String)
    ensures
        r@ == sanitize_spec(code@),
        forall|k: int| 0 <= k < r@.len() ==> !is_control_char(#[trigger] r@[k]),
{
    let v = chars_of(code);
    let mut out: Vec<char> = Vec::new();
    for i in 0..v.len()
        invariant
            v@ == code@,
            out@ == sanitize_spec(v@.take(i as int)),
    {
        let ghost next = v@.take(i + 1);
        assert(next.drop_last() == v@.take(i as int));
        let c = if v[i] == '\t' {
            ' '
        } else {
            v[i]
        };
        if !is_control(c) {
            out.push(c);
        }
    }
    assert(v@.take(v.len() as int) == v@);
    proof {
        lemma_sanitize_no_control(code@);
    }
    string_of(&out)
}

pub proof fn lemma_sanitize_no_control(s: Seq<char>)
    ensures
        forall|k: int| 0 <= k < sanitize_spec(s).len() ==> !is_control_char(#[trigger] sanitize_spec(s)[k]),
    decreases s.len(),
{
    if s.len() > 0 {
        let t = s.drop_last();
        lemma_sanitize_no_control(t);
        let rest = sanitize_spec(t);
        assert forall|k: int| 0 <= k < sanitize_spec(s).len() implies !is_control_char(#[trigger] sanitize_spec(s)[k]) by {
            if k < rest.len() {
                assert(sanitize_spec(s)[k] == rest[k]);
            }
        }
    }
}

/// The rest of `s` after `p`, if `s` starts with `p` (what `str::strip_prefix` returns).
pub fn strip_prefix(s: &str, p: &str) -> (r: Option<String>)
    ensures
        match r {
            Some(rest) => has_prefix(s@, p@) && rest@ == s@.skip(p@.len() as int),
            None => !has_prefix(s@, p@),
        },
{
    let v = chars_of(s);
    let q = chars_of(p);
    if !starts_with(&v, &q) {
        return None;
    }
    let mut out: Vec<char> = Vec::new();
    let mut k = q.len();
    while k < v.len()
        invariant
            q.len() <= k <= v.len(),
            out@ == v@.subrange(q.len() as int, k as int),
        decreases v.len() - k,
    {
        out.push(v[k]);
        assert(v@.subrange(q.len() as int, k + 1) == v@.subrange(q.len() as int, k as int).push(
            v@[k as int],
        ));
        k += 1;
    }
    Some(string_of(&out))
}

/// Are the two character sequences equal?
pub fn chars_equal(a: &Vec<char>, b: &Vec<char>) -> (r: bool)
    ensures
        r == (a@ == b@),
{
    if a.len() != b.len() {
        return false;
    }
    let mut i: usize = 0;
    while i < a.len()
        invariant
            a.len() == b.len(),
            i <= a.len(),
            forall|j: int| 0 <= j < i ==> a@[j] == b@[j],
        decreases a.len() - i,
    {
        if a[i] != b[i] {
            return false;
        }
        i += 1;
    }
    assert(a@ =~= b@);
    true
}

/// Appends the characters of `w` to `out`.
pub fn extend_chars(out: &mut Vec<char>, w: &Vec<char>)
    ensures
        final(out)@ == old(out)@ + w@,
{
    let mut k: usize = 0;
    let ghost start = out@;
    while k < w.len()
        invariant
            k <= w.len(),
            out@ == start + w@.take(k as int),
        decreases w.len() - k,
    {
        out.push(w[k]);
        assert(w@.take(k + 1) == w@.take(k as int).push(w@[k as int]));
        assert(out@ =~= start + w@.take(k + 1));
        k += 1;
    }
    assert(w@.take(w.len() as int) == w@);
}

/// Appends the characters of `s` to `out`.
pub fn push_chars(out: &mut Vec<char>, s: &str)
    ensures
        final(out)@ == old(out)@ + s@,
{
    let w = chars_of(s);
    extend_chars(out, &w);
}

/// The concatenation of two strings.
pub fn concat(a: &str, b: &str) -> (r: String)
    ensures
        r@ == a@ + b@,
{
    let mut v = chars_of(a);
    push_chars(&mut v, b);
    string_of(&v)
}

} // verus!
