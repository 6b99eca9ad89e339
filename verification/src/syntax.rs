use vstd::prelude::*;
use vstd::std_specs::iter::IteratorSpec;
use crate::bytecode::CapabilityDeclV;
use crate::value::ValueType;

verus! {

/// Appends one character to a string (`String::push`).
///
/// Trusted: the contract claims only that the string's characters gain `c` at the end, as
/// the standard library documents.
#[verifier::external_body]
pub(crate) fn push_char(s: &mut String, c: char)
    ensures
        final(s)@ == old(s)@.push(c),
{
    s.push(c);
}

/// The characters of a string, in order.
pub fn chars_of(s: &str) -> (r: Vec<char>)
    ensures
        r@ == s@,
{
    let n = s.unicode_len();
    let mut out: Vec<char> = Vec::new();
    let mut it = s.chars();
    let mut i: usize = 0;
    proof {
        broadcast use vstd::string::axiom_spec_iter;
        broadcast use vstd::string::next_postcondition;
    }
    while i < n
        invariant
            n == s@.len(),
            i <= n,
            out@ == s@.subrange(0, i as int),
            it.obeys_prophetic_iter_laws(),
            it.remaining() == s@.subrange(i as int, n as int),
        decreases n - i,
    {
        proof {
            broadcast use vstd::string::next_postcondition;
        }
        let c = it.next();
        match c {
            Some(ch) => {
                assert(ch == s@[i as int]);
                out.push(ch);
                i = i + 1;
                assert(out@ =~= s@.subrange(0, i as int));
                assert(it.remaining() =~= s@.subrange(i as int, n as int));
            },
            None => {
                assert(false);
            },
        }
    }
    assert(out@ =~= s@);
    out
}

/// A string holding the characters `cs[from..to]`.
pub fn string_from(cs: &Vec<char>, from: usize, to: usize) -> (r: String)
    requires
        from <= to <= cs.len(),
    ensures
        r@ == cs@.subrange(from as int, to as int),
{
    let mut out = String::new();
    let mut i = from;
    while i < to
        invariant
            from <= i <= to <= cs.len(),
            out@ == cs@.subrange(from as int, i as int),
        decreases to - i,
    {
        push_char(&mut out, cs[i]);
        i = i + 1;
        assert(out@ =~= cs@.subrange(from as int, i as int));
    }
    out
}

/// A string holding the characters `cs`.
pub fn string_of_chars(cs: &Vec<char>) -> (r: String)
    ensures
        r@ == cs@,
{
    let r = string_from(cs, 0, cs.len());
    assert(cs@.subrange(0, cs.len() as int) =~= cs@);
    r
}

/// The characters `cs[from..to]`.
pub fn slice_chars(cs: &Vec<char>, from: usize, to: usize) -> (r: Vec<char>)
    requires
        from <= to <= cs.len(),
    ensures
        r@ == cs@.subrange(from as int, to as int),
{
    let mut out: Vec<char> = Vec::new();
    let mut i = from;
    while i < to
        invariant
            from <= i <= to <= cs.len(),
            out@ == cs@.subrange(from as int, i as int),
        decreases to - i,
    {
        out.push(cs[i]);
        i = i + 1;
        assert(out@ =~= cs@.subrange(from as int, i as int));
    }
    out
}

/// Whether two character vectors hold the same characters.
pub fn chars_eq(a: &Vec<char>, b: &Vec<char>) -> (r: bool)
    ensures
        r == (a@ == b@),
{
    if a.len() != b.len() {
        return false;
    }
    let mut i: usize = 0;
    while i < a.len()
        invariant
            a.len() == b.len(),
            i <= a.len(),
            forall|j: int| 0 <= j < i ==> a@[j] == b@[j],
        decreases a.len() - i,
    {
        if a[i] != b[i] {
            return false;
        }
        i = i + 1;
    }
    assert(a@ =~= b@);
    true
}

/// Whether the characters of `a` are those of the string `b`.
pub fn chars_are(a: &Vec<char>, b: &str) -> (r: bool)
    ensures
        r == (a@ == b@),
{
    let bv = chars_of(b);
    chars_eq(a, &bv)
}

// ---------------------------------------------------------------------------------------
// Whitespace and trimming

/// Unicode white space (`char::is_whitespace`).
pub open spec fn is_ws(c: char) -> bool {
    c == ' ' || c == '\t' || c == '\n' || c == '\x0B' || c == '\x0C' || c == '\r' || c == '\u{85}' || c
        == '\u{A0}' || c == '\u{1680}' || ('\u{2000}' <= c && c <= '\u{200A}') || c == '\u{2028}' || c
        == '\u{2029}' || c == '\u{202F}' || c == '\u{205F}' || c == '\u{3000}'
}

pub fn is_ws_exec(c: char) -> (r: bool)
    ensures
        r == is_ws(c),
{
    c == ' ' || c == '\t' || c == '\n' || c == '\x0B' || c == '\x0C' || c == '\r' || c == '\u{85}' || c
        == '\u{A0}' || c == '\u{1680}' || ('\u{2000}' <= c && c <= '\u{200A}') || c == '\u{2028}' || c
        == '\u{2029}' || c == '\u{202F}' || c == '\u{205F}' || c == '\u{3000}'
}

/// The number of leading white-space characters.
pub open spec fn lead_ws(s: Seq<char>) -> nat
    decreases s.len(),
{
    if s.len() > 0 && is_ws(s[0]) {
        1 + lead_ws(s.drop_first())
    } else {
        0
    }
}

/// The number of trailing white-space characters.
pub open spec fn trail_ws(s: Seq<char>) -> nat
    decreases s.len(),
{
    if s.len() > 0 && is_ws(s.last()) {
        1 + trail_ws(s.drop_last())
    } else {
        0
    }
}

pub open spec fn trim_start(s: Seq<char>) -> Seq<char> {
    s.subrange(lead_ws(s) as int, s.len() as int)
}

pub open spec fn trim_end(s: Seq<char>) -> Seq<char> {
    s.subrange(0, s.len() - trail_ws(s))
}

/// `s` without leading and trailing white space (`str::trim`).
pub open spec fn trim(s: Seq<char>) -> Seq<char> {
    trim_end(trim_start(s))
}

pub proof fn lemma_lead_ws(s: Seq<char>)
    ensures
        lead_ws(s) <= s.len(),
        forall|i: int| 0 <= i < lead_ws(s) ==> is_ws(#[trigger] s[i]),
        lead_ws(s) < s.len() ==> !is_ws(s[lead_ws(s) as int]),
    decreases s.len(),
{
    if s.len() > 0 && is_ws(s[0]) {
        lemma_lead_ws(s.drop_first());
        assert forall|i: int| 0 <= i < lead_ws(s) implies is_ws(#[trigger] s[i]) by {
            if i > 0 {
                assert(s[i] == s.drop_first()[i - 1]);
            }
        }
        if lead_ws(s) < s.len() {
            assert(s[lead_ws(s) as int] == s.drop_first()[lead_ws(s.drop_first()) as int]);
        }
    }
}

pub proof fn lemma_trail_ws(s: Seq<char>)
    ensures
        trail_ws(s) <= s.len(),
        forall|i: int| s.len() - trail_ws(s) <= i < s.len() ==> is_ws(#[trigger] s[i]),
        trail_ws(s) < s.len() ==> !is_ws(s[s.len() - trail_ws(s) - 1]),
    decreases s.len(),
{
    if s.len() > 0 && is_ws(s.last()) {
        lemma_trail_ws(s.drop_last());
        assert forall|i: int| s.len() - trail_ws(s) <= i < s.len() implies is_ws(#[trigger] s[i]) by {
            if i < s.len() - 1 {
                assert(s[i] == s.drop_last()[i]);
            }
        }
        if trail_ws(s) < s.len() {
            assert(s[s.len() - trail_ws(s) - 1] == s.drop_last()[s.drop_last().len() - trail_ws(s.drop_last()) - 1]);
        }
    }
}

/// Trimming never lengthens.
pub proof fn lemma_trim_len(s: Seq<char>)
    ensures
        trim(s).len() <= s.len(),
{
    lemma_lead_ws(s);
    lemma_trail_ws(s.subrange(lead_ws(s) as int, s.len() as int));
}

/// The leading white-space count is the first position of a non-white-space character.
proof fn lemma_lead_ws_char(s: Seq<char>, k: int)
    requires
        0 <= k <= s.len(),
        forall|i: int| 0 <= i < k ==> is_ws(#[trigger] s[i]),
        k < s.len() ==> !is_ws(s[k]),
    ensures
        lead_ws(s) == k,
    decreases s.len(),
{
    if k > 0 {
        assert forall|i: int| 0 <= i < k - 1 implies is_ws(#[trigger] s.drop_first()[i]) by {
            assert(s.drop_first()[i] == s[i + 1]);
        }
        if k - 1 < s.drop_first().len() {
            assert(s.drop_first()[k - 1] == s[k]);
        }
        lemma_lead_ws_char(s.drop_first(), k - 1);
    }
}

proof fn lemma_trail_ws_char(s: Seq<char>, k: int)
    requires
        0 <= k <= s.len(),
        forall|i: int| s.len() - k <= i < s.len() ==> is_ws(#[trigger] s[i]),
        k < s.len() ==> !is_ws(s[s.len() - k - 1]),
    ensures
        trail_ws(s) == k,
    decreases s.len(),
{
    if k > 0 {
        assert forall|i: int| s.drop_last().len() - (k - 1) <= i < s.drop_last().len() implies is_ws(#[trigger] s.drop_last()[i]) by {
            assert(s.drop_last()[i] == s[i]);
        }
        if k - 1 < s.drop_last().len() {
            assert(s.drop_last()[s.drop_last().len() - (k - 1) - 1] == s[s.len() - k - 1]);
        }
        lemma_trail_ws_char(s.drop_last(), k - 1);
    }
}

/// The bounds `(from, to)` of `trim(cs[a..b])` within `cs`.
pub fn trim_bounds(cs: &Vec<char>, a: usize, b: usize) -> (r: (usize, usize))
    requires
        a <= b <= cs.len(),
    ensures
        a <= r.0 <= r.1 <= b,
        cs@.subrange(r.0 as int, r.1 as int) == trim(cs@.subrange(a as int, b as int)),
{
    let ghost s = cs@.subrange(a as int, b as int);
    let mut i = a;
    while i < b && is_ws_exec(cs[i])
        invariant
            a <= i <= b <= cs.len(),
            s == cs@.subrange(a as int, b as int),
            forall|k: int| 0 <= k < i - a ==> is_ws(#[trigger] s[k]),
        decreases b - i,
    {
        assert(s[i - a] == cs@[i as int]);
        i = i + 1;
    }
    proof {
        if i < b {
            assert(s[i - a] == cs@[i as int]);
        }
        lemma_lead_ws_char(s, i - a);
    }
    let ghost t = trim_start(s);
    assert(t =~= cs@.subrange(i as int, b as int));
    let mut j = b;
    while j > i && is_ws_exec(cs[j - 1])
        invariant
            a <= i <= j <= b <= cs.len(),
            t == cs@.subrange(i as int, b as int),
            forall|k: int| t.len() - (b - j) <= k < t.len() ==> is_ws(#[trigger] t[k]),
        decreases j - i,
    {
        assert(t[j - 1 - i] == cs@[j - 1]);
        j = j - 1;
    }
    proof {
        if j > i {
            assert(t[t.len() - (b - j) - 1] == cs@[j - 1]);
        }
        lemma_trail_ws_char(t, (b - j) as int);
    }
    assert(cs@.subrange(i as int, j as int) =~= trim(s));
    (i, j)
}

/// `trim(cs)`.
pub fn trim_chars(cs: &Vec<char>) -> (r: Vec<char>)
    ensures
        r@ == trim(cs@),
{
    let (i, j) = trim_bounds(cs, 0, cs.len());
    assert(cs@.subrange(0, cs.len() as int) =~= cs@);
    slice_chars(cs, i, j)
}


// ---------------------------------------------------------------------------------------
// Lines

pub open spec fn strip_cr(l: Seq<char>) -> Seq<char> {
    if l.len() > 0 && l.last() == '\r' {
        l.drop_last()
    } else {
        l
    }
}

/// The complete lines of `s` and the text after the last line break.
pub open spec fn line_fold(s: Seq<char>) -> (Seq<Seq<char>>, Seq<char>)
    decreases s.len(),
{
    if s.len() == 0 {
        (Seq::empty(), Seq::empty())
    } else {
        let (ls, cur) = line_fold(s.drop_last());
        if s.last() == '\n' {
            (ls.push(strip_cr(cur)), Seq::empty())
        } else {
            (ls, cur.push(s.last()))
        }
    }
}

/// The lines of `s` (`str::lines`): split at `\n`, a `\r` before it dropped, and no empty
/// line after a final line break.
pub open spec fn lines(s: Seq<char>) -> Seq<Seq<char>> {
    let (ls, cur) = line_fold(s);
    if cur.len() > 0 {
        ls.push(cur)
    } else {
        ls
    }
}

pub fn lines_of(cs: &Vec<char>) -> (r: Vec<Vec<char>>)
    ensures
        r@.map_values(|l: Vec<char>| l@) == lines(cs@),
{
    let mut out: Vec<Vec<char>> = Vec::new();
    let mut cur: Vec<char> = Vec::new();
    let mut i: usize = 0;
    while i < cs.len()
        invariant
            i <= cs.len(),
            (out@.map_values(|l: Vec<char>| l@), cur@) == line_fold(cs@.subrange(0, i as int)),
        decreases cs.len() - i,
    {
        assert(cs@.subrange(0, i + 1).drop_last() =~= cs@.subrange(0, i as int));
        let ghost before = out@.map_values(|l: Vec<char>| l@);
        if cs[i] == '\n' {
            if cur.len() > 0 && cur[cur.len() - 1] == '\r' {
                cur.pop();
            }
            out.push(cur);
            cur = Vec::new();
            assert(out@.map_values(|l: Vec<char>| l@) =~= before.push(out@[out.len() - 1]@));
        } else {
            cur.push(cs[i]);
            assert(out@.map_values(|l: Vec<char>| l@) =~= before);
        }
        i = i + 1;
    }
    assert(cs@.subrange(0, i as int) =~= cs@);
    if cur.len() > 0 {
        let ghost before = out@.map_values(|l: Vec<char>| l@);
        out.push(cur);
        assert(out@.map_values(|l: Vec<char>| l@) =~= before.push(out@[out.len() - 1]@));
    }
    out
}

// ---------------------------------------------------------------------------------------
// Comments and quoted strings

/// Where a `#` comment starts in `s` at or after `i`, given whether position `i` lies inside a
/// string; the end of `s` when there is none.
pub open spec fn comment_at(s: Seq<char>, i: int, in_str: bool) -> int
    decreases s.len() - i,
{
    if i >= s.len() || i < 0 {
        s.len() as int
    } else if s[i] == '"' {
        comment_at(s, i + 1, !in_str)
    } else if s[i] == '#' && !in_str {
        i
    } else {
        comment_at(s, i + 1, in_str)
    }
}

/// `s` up to its first `#` outside a string.
pub open spec fn strip_comment(s: Seq<char>) -> Seq<char> {
    s.subrange(0, comment_at(s, 0, false))
}

proof fn lemma_comment_at_bounds(s: Seq<char>, i: int, in_str: bool)
    requires
        0 <= i,
    ensures
        i <= comment_at(s, i, in_str) <= s.len() || (i > s.len() && comment_at(s, i, in_str) == s.len()),
    decreases s.len() - i,
{
    if i < s.len() {
        if s[i] == '"' {
            lemma_comment_at_bounds(s, i + 1, !in_str);
        } else if !(s[i] == '#' && !in_str) {
            lemma_comment_at_bounds(s, i + 1, in_str);
        }
    }
}

pub fn strip_comment_exec(cs: &Vec<char>) -> (r: Vec<char>)
    ensures
        r@ == strip_comment(cs@),
{
    let mut in_str = false;
    let mut i: usize = 0;
    while i < cs.len()
        invariant
            i <= cs.len(),
            comment_at(cs@, i as int, in_str) == comment_at(cs@, 0, false),
        decreases cs.len() - i,
    {
        if cs[i] == '"' {
            in_str = !in_str;
        } else if cs[i] == '#' && !in_str {
            return slice_chars(cs, 0, i);
        }
        i = i + 1;
    }
    slice_chars(cs, 0, cs.len())
}

/// `s` with every `a b` pair, left to right, replaced by `r` (`str::replace` with a
/// two-character pattern).
pub open spec fn replace2(s: Seq<char>, a: char, b: char, r: char) -> Seq<char>
    decreases s.len(),
{
    if s.len() == 0 {
        Seq::empty()
    } else if s.len() >= 2 && s[0] == a && s[1] == b {
        seq![r] + replace2(s.subrange(2, s.len() as int), a, b, r)
    } else {
        seq![s[0]] + replace2(s.drop_first(), a, b, r)
    }
}

fn replace2_exec(cs: &Vec<char>, a: char, b: char, r: char) -> (out: Vec<char>)
    ensures
        out@ == replace2(cs@, a, b, r),
{
    let mut out: Vec<char> = Vec::new();
    let mut i: usize = 0;
    assert(cs@.subrange(0, cs.len() as int) =~= cs@);
    assert(out@ + replace2(cs@, a, b, r) =~= replace2(cs@, a, b, r));
    while i < cs.len()
        invariant
            i <= cs.len(),
            out@ + replace2(cs@.subrange(i as int, cs.len() as int), a, b, r) == replace2(cs@, a, b, r),
        decreases cs.len() - i,
    {
        let ghost rest = cs@.subrange(i as int, cs.len() as int);
        if i + 1 < cs.len() && cs[i] == a && cs[i + 1] == b {
            assert(rest.subrange(2, rest.len() as int) =~= cs@.subrange(i + 2, cs.len() as int));
            out.push(r);
            i = i + 2;
        } else {
            assert(rest.drop_first() =~= cs@.subrange(i + 1, cs.len() as int));
            out.push(cs[i]);
            i = i + 1;
        }
        assert(out@ + replace2(cs@.subrange(i as int, cs.len() as int), a, b, r) =~= replace2(cs@, a, b, r));
    }
    assert(cs@.subrange(i as int, cs.len() as int) =~= Seq::<char>::empty());
    assert(out@ =~= out@ + replace2(Seq::<char>::empty(), a, b, r));
    out
}

/// The text of a quoted token: inside the quotes, with `\"` and `\n` unescaped; `None` when
/// the token is not quoted.
pub open spec fn unquote(t: Seq<char>) -> Option<Seq<char>> {
    if t.len() >= 2 && t[0] == '"' && t.last() == '"' {
        Some(replace2(replace2(t.subrange(1, t.len() - 1), '\\', '"', '"'), '\\', 'n', '\n'))
    } else {
        None
    }
}

pub fn unquote_exec(t: &Vec<char>) -> (r: Option<Vec<char>>)
    ensures
        match r {
            Some(v) => unquote(t@) == Some(v@),
            None => unquote(t@) is None,
        },
{
    if t.len() >= 2 && t[0] == '"' && t[t.len() - 1] == '"' {
        let inner = slice_chars(t, 1, t.len() - 1);
        let once = replace2_exec(&inner, '\\', '"', '"');
        Some(replace2_exec(&once, '\\', 'n', '\n'))
    } else {
        None
    }
}

// ---------------------------------------------------------------------------------------
// Words and numbers

/// The words of `s` and the unfinished word at its end.
pub open spec fn word_fold(s: Seq<char>) -> (Seq<Seq<char>>, Seq<char>)
    decreases s.len(),
{
    if s.len() == 0 {
        (Seq::empty(), Seq::empty())
    } else {
        let (ws, cur) = word_fold(s.drop_last());
        if is_ws(s.last()) {
            if cur.len() > 0 {
                (ws.push(cur), Seq::empty())
            } else {
                (ws, Seq::empty())
            }
        } else {
            (ws, cur.push(s.last()))
        }
    }
}

/// The maximal runs of non-white-space characters of `s` (`str::split_whitespace`).
pub open spec fn words(s: Seq<char>) -> Seq<Seq<char>> {
    let (ws, cur) = word_fold(s);
    if cur.len() > 0 {
        ws.push(cur)
    } else {
        ws
    }
}

pub fn words_of(cs: &Vec<char>) -> (r: Vec<Vec<char>>)
    ensures
        r@.map_values(|l: Vec<char>| l@) == words(cs@),
{
    let mut out: Vec<Vec<char>> = Vec::new();
    let mut cur: Vec<char> = Vec::new();
    let mut i: usize = 0;
    while i < cs.len()
        invariant
            i <= cs.len(),
            (out@.map_values(|l: Vec<char>| l@), cur@) == word_fold(cs@.subrange(0, i as int)),
        decreases cs.len() - i,
    {
        assert(cs@.subrange(0, i + 1).drop_last() =~= cs@.subrange(0, i as int));
        let ghost before = out@.map_values(|l: Vec<char>| l@);
        if is_ws_exec(cs[i]) {
            if cur.len() > 0 {
                out.push(cur);
                assert(out@.map_values(|l: Vec<char>| l@) =~= before.push(out@[out.len() - 1]@));
            }
            cur = Vec::new();
        } else {
            cur.push(cs[i]);
        }
        i = i + 1;
    }
    assert(cs@.subrange(0, i as int) =~= cs@);
    if cur.len() > 0 {
        let ghost before = out@.map_values(|l: Vec<char>| l@);
        out.push(cur);
        assert(out@.map_values(|l: Vec<char>| l@) =~= before.push(out@[out.len() - 1]@));
    }
    out
}

pub open spec fn is_digit(c: char) -> bool {
    '0' <= c && c <= '9'
}

pub open spec fn digit_value(c: char) -> int {
    c as int - '0' as int
}

/// The value of a run of decimal digits.
pub open spec fn digits_value(s: Seq<char>) -> int
    decreases s.len(),
{
    if s.len() == 0 {
        0
    } else {
        digits_value(s.drop_last()) * 10 + digit_value(s.last())
    }
}

pub open spec fn all_digits(s: Seq<char>) -> bool {
    forall|i: int| 0 <= i < s.len() ==> is_digit(#[trigger] s[i])
}

/// The digits after an optional sign `sign`, when they form a number.
pub open spec fn unsigned_text(s: Seq<char>, sign: char) -> Option<int> {
    let d = if s.len() > 0 && s[0] == sign {
        s.drop_first()
    } else {
        s
    };
    if d.len() == 0 || !all_digits(d) {
        None
    } else {
        Some(digits_value(d))
    }
}

/// `s` read as a `usize`, as `str::parse` reads it: an optional `+`, then decimal digits,
/// within range.
pub open spec fn parse_usize(s: Seq<char>) -> Option<usize> {
    match unsigned_text(s, '+') {
        Some(v) => if v <= usize::MAX {
            Some(v as usize)
        } else {
            None
        },
        None => None,
    }
}

/// `s` read as an `i64`, as `str::parse` reads it: an optional sign, then decimal digits,
/// within range.
pub open spec fn parse_i64(s: Seq<char>) -> Option<i64> {
    if s.len() > 0 && s[0] == '-' {
        match unsigned_text(s.drop_first(), '-') {
            Some(v) => if s.len() >= 2 && s[1] != '-' && v <= 0x8000_0000_0000_0000 {
                Some((-v) as i64)
            } else {
                None
            },
            None => None,
        }
    } else {
        match unsigned_text(s, '+') {
            Some(v) => if v <= i64::MAX {
                Some(v as i64)
            } else {
                None
            },
            None => None,
        }
    }
}

proof fn lemma_digits_value_nonneg(s: Seq<char>)
    requires
        all_digits(s),
    ensures
        digits_value(s) >= 0,
    decreases s.len(),
{
    if s.len() > 0 {
        assert forall|i: int| 0 <= i < s.drop_last().len() implies is_digit(#[trigger] s.drop_last()[i]) by {
            assert(s.drop_last()[i] == s[i]);
        }
        lemma_digits_value_nonneg(s.drop_last());
        assert(is_digit(s[s.len() - 1]));
    }
}

/// Appending digits never makes a number smaller.
proof fn lemma_digits_value_grows(s: Seq<char>, n: int)
    requires
        all_digits(s),
        0 <= n <= s.len(),
    ensures
        digits_value(s.subrange(0, n)) <= digits_value(s),
    decreases s.len() - n,
{
    if n < s.len() {
        lemma_digits_value_grows(s, n + 1);
        let p = s.subrange(0, n + 1);
        assert(p.drop_last() =~= s.subrange(0, n));
        assert(is_digit(s[n]));
        assert forall|i: int| 0 <= i < s.subrange(0, n).len() implies is_digit(#[trigger] s.subrange(0, n)[i]) by {
            assert(s.subrange(0, n)[i] == s[i]);
        }
        lemma_digits_value_nonneg(s.subrange(0, n));
    } else {
        assert(s.subrange(0, n) =~= s);
    }
}

/// The value of the digits `cs[from..to]`, or `None` when it exceeds `bound` (or a
/// character is not a digit, or there are none).
fn digits_upto(cs: &Vec<char>, from: usize, to: usize, bound: u64) -> (r: Option<u64>)
    requires
        from <= to <= cs.len(),
    ensures
        match r {
            Some(v) => from < to && all_digits(cs@.subrange(from as int, to as int)) && v == digits_value(
                cs@.subrange(from as int, to as int),
            ) && v <= bound,
            None => from == to || !all_digits(cs@.subrange(from as int, to as int)) || digits_value(
                cs@.subrange(from as int, to as int),
            ) > bound,
        },
{
    if from == to {
        return None;
    }
    let ghost d = cs@.subrange(from as int, to as int);
    let mut i = from;
    while i < to
        invariant
            from <= i <= to <= cs.len(),
            d == cs@.subrange(from as int, to as int),
            forall|k: int| 0 <= k < i - from ==> is_digit(#[trigger] d[k]),
        decreases to - i,
    {
        assert(d[i - from] == cs@[i as int]);
        if !('0' <= cs[i] && cs[i] <= '9') {
            return None;
        }
        i = i + 1;
    }
    let mut acc: u64 = 0;
    let mut j = from;
    while j < to
        invariant
            from <= j <= to <= cs.len(),
            d == cs@.subrange(from as int, to as int),
            all_digits(d),
            acc == digits_value(d.subrange(0, j - from)),
            acc <= bound,
        decreases to - j,
    {
        assert(d.subrange(0, j - from + 1).drop_last() =~= d.subrange(0, j - from));
        assert(d[j - from] == cs@[j as int]);
        assert(is_digit(d[j - from]));
        let digit = (cs[j] as u32 - '0' as u32) as u64;
        let next: u128 = acc as u128 * 10 + digit as u128;
        if next > bound as u128 {
            proof {
                lemma_digits_value_grows(d, j - from + 1);
            }
            return None;
        }
        acc = next as u64;
        j = j + 1;
    }
    assert(d.subrange(0, to - from) =~= d);
    Some(acc)
}

pub fn parse_usize_exec(cs: &Vec<char>) -> (r: Option<usize>)
    ensures
        r == parse_usize(cs@),
{
    let start: usize = if cs.len() > 0 && cs[0] == '+' {
        1
    } else {
        0
    };
    let ghost d = if cs@.len() > 0 && cs@[0] == '+' {
        cs@.drop_first()
    } else {
        cs@
    };
    assert(d =~= cs@.subrange(start as int, cs.len() as int));
    match digits_upto(cs, start, cs.len(), usize::MAX as u64) {
        Some(v) => Some(v as usize),
        None => None,
    }
}

pub fn parse_i64_exec(cs: &Vec<char>) -> (r: Option<i64>)
    ensures
        r == parse_i64(cs@),
{
    if cs.len() > 0 && cs[0] == '-' {
        let ghost rest = cs@.drop_first();
        assert(rest =~= cs@.subrange(1, cs.len() as int));
        if cs.len() >= 2 && cs[1] == '-' {
            return None;
        }
        assert(rest.len() > 0 ==> rest[0] != '-');
        assert(!(rest.len() > 0 && rest[0] == '-') ==> rest == rest);
        match digits_upto(cs, 1, cs.len(), 0x8000_0000_0000_0000u64) {
            Some(v) => {
                if v == 0x8000_0000_0000_0000u64 {
                    Some(i64::MIN)
                } else {
                    Some(-(v as i64))
                }
            },
            None => None,
        }
    } else {
        let start: usize = if cs.len() > 0 && cs[0] == '+' {
            1
        } else {
            0
        };
        let ghost d = if cs@.len() > 0 && cs@[0] == '+' {
            cs@.drop_first()
        } else {
            cs@
        };
        assert(d =~= cs@.subrange(start as int, cs.len() as int));
        match digits_upto(cs, start, cs.len(), i64::MAX as u64) {
            Some(v) => Some(v as i64),
            None => None,
        }
    }
}

/// Whether `p` is a prefix of `s`.
pub open spec fn has_prefix(s: Seq<char>, p: Seq<char>) -> bool {
    p.len() <= s.len() && s.subrange(0, p.len() as int) == p
}

pub fn has_prefix_exec(s: &Vec<char>, p: &str) -> (r: bool)
    ensures
        r == has_prefix(s@, p@),
{
    let pv = chars_of(p);
    if pv.len() > s.len() {
        return false;
    }
    let mut i: usize = 0;
    while i < pv.len()
        invariant
            pv@ == p@,
            pv.len() <= s.len(),
            i <= pv.len(),
            forall|k: int| 0 <= k < i ==> s@[k] == pv@[k],
        decreases pv.len() - i,
    {
        if s[i] != pv[i] {
            assert(s@.subrange(0, pv.len() as int)[i as int] != pv@[i as int]);
            return false;
        }
        i = i + 1;
    }
    assert(s@.subrange(0, pv.len() as int) =~= pv@);
    true
}

/// `s` with `p` removed from its start as often as it occurs there
/// (`str::trim_start_matches`).
pub open spec fn strip_all(s: Seq<char>, p: Seq<char>) -> Seq<char>
    decreases s.len(),
{
    if p.len() > 0 && has_prefix(s, p) {
        strip_all(s.subrange(p.len() as int, s.len() as int), p)
    } else {
        s
    }
}

pub fn strip_all_exec(s: &Vec<char>, p: &str) -> (r: Vec<char>)
    ensures
        r@ == strip_all(s@, p@),
{
    let pv = chars_of(p);
    let mut cur = slice_chars(s, 0, s.len());
    assert(s@.subrange(0, s.len() as int) =~= s@);
    if pv.len() == 0 {
        return cur;
    }
    while has_prefix_exec(&cur, p)
        invariant
            pv@ == p@,
            pv.len() > 0,
            strip_all(cur@, p@) == strip_all(s@, p@),
        decreases cur.len(),
    {
        cur = slice_chars(&cur, pv.len(), cur.len());
    }
    cur
}


// ---------------------------------------------------------------------------------------
// Argument lists

pub struct ArgState {
    pub args: Seq<Seq<char>>,
    pub cur: Seq<char>,
    pub in_str: bool,
    pub depth: nat,
}

pub open spec fn arg_step(st: ArgState, c: char) -> ArgState {
    if c == '"' {
        ArgState { in_str: !st.in_str, cur: st.cur.push(c), ..st }
    } else if (c == '[' || c == '(') && !st.in_str {
        ArgState { depth: st.depth + 1, cur: st.cur.push(c), ..st }
    } else if (c == ']' || c == ')') && !st.in_str {
        ArgState { depth: if st.depth > 0 { (st.depth - 1) as nat } else { 0 }, cur: st.cur.push(c), ..st }
    } else if c == ',' && !st.in_str && st.depth == 0 {
        ArgState { args: st.args.push(trim(st.cur)), cur: Seq::empty(), ..st }
    } else {
        ArgState { cur: st.cur.push(c), ..st }
    }
}

pub open spec fn arg_fold(s: Seq<char>) -> ArgState
    decreases s.len(),
{
    if s.len() == 0 {
        ArgState { args: Seq::empty(), cur: Seq::empty(), in_str: false, depth: 0 }
    } else {
        arg_step(arg_fold(s.drop_last()), s.last())
    }
}

/// The comma-separated items of `input`, commas inside strings and brackets not counting;
/// `None` when a string or a bracket is left open.
pub open spec fn split_args(input: Seq<char>) -> Option<Seq<Seq<char>>> {
    let t = trim(input);
    if t.len() == 0 {
        Some(Seq::empty())
    } else {
        let st = arg_fold(t);
        if st.in_str || st.depth != 0 {
            None
        } else if trim(st.cur).len() > 0 {
            Some(st.args.push(trim(st.cur)))
        } else {
            Some(st.args)
        }
    }
}

pub open spec fn chars_view(v: Seq<Vec<char>>) -> Seq<Seq<char>> {
    v.map_values(|l: Vec<char>| l@)
}

pub fn split_args_exec(input: &Vec<char>) -> (r: Option<Vec<Vec<char>>>)
    ensures
        match r {
            Some(v) => split_args(input@) == Some(chars_view(v@)),
            None => split_args(input@) is None,
        },
{
    let t = trim_chars(input);
    if t.len() == 0 {
        let none: Vec<Vec<char>> = Vec::new();
        assert(chars_view(none@) =~= Seq::<Seq<char>>::empty());
        return Some(none);
    }
    let mut args: Vec<Vec<char>> = Vec::new();
    let mut cur: Vec<char> = Vec::new();
    let mut in_str = false;
    let mut depth: usize = 0;
    let mut i: usize = 0;
    while i < t.len()
        invariant
            i <= t.len(),
            depth <= i,
            ({
                let st = arg_fold(t@.subrange(0, i as int));
                &&& st.args == chars_view(args@)
                &&& st.cur == cur@
                &&& st.in_str == in_str
                &&& st.depth == depth
            }),
        decreases t.len() - i,
    {
        assert(t@.subrange(0, i + 1).drop_last() =~= t@.subrange(0, i as int));
        let c = t[i];
        let ghost before = chars_view(args@);
        if c == '"' {
            in_str = !in_str;
            cur.push(c);
        } else if (c == '[' || c == '(') && !in_str {
            depth = depth + 1;
            cur.push(c);
        } else if (c == ']' || c == ')') && !in_str {
            if depth > 0 {
                depth = depth - 1;
            }
            cur.push(c);
        } else if c == ',' && !in_str && depth == 0 {
            let piece = trim_chars(&cur);
            args.push(piece);
            cur = Vec::new();
            assert(chars_view(args@) =~= before.push(piece@));
        } else {
            cur.push(c);
        }
        i = i + 1;
    }
    assert(t@.subrange(0, i as int) =~= t@);
    if in_str || depth != 0 {
        return None;
    }
    let last = trim_chars(&cur);
    if last.len() > 0 {
        let ghost before = chars_view(args@);
        args.push(last);
        assert(chars_view(args@) =~= before.push(last@));
    }
    Some(args)
}

// ---------------------------------------------------------------------------------------
// Value types and capability declarations

/// The value type that a type name denotes.
pub open spec fn value_type_named(s: Seq<char>) -> Option<ValueType> {
    if s == "nil"@ {
        Some(ValueType::Nil)
    } else if s == "bool"@ {
        Some(ValueType::Bool)
    } else if s == "i64"@ {
        Some(ValueType::I64)
    } else if s == "f64"@ {
        Some(ValueType::F64)
    } else if s == "string"@ {
        Some(ValueType::String)
    } else if s == "array"@ {
        Some(ValueType::Array)
    } else if s == "function"@ {
        Some(ValueType::Function)
    } else if s == "capability"@ {
        Some(ValueType::Capability)
    } else if s == "any"@ {
        Some(ValueType::Any)
    } else if s == "any..."@ {
        Some(ValueType::AnyVariadic)
    } else {
        None
    }
}

pub fn value_type_named_exec(s: &Vec<char>) -> (r: Option<ValueType>)
    ensures
        r == value_type_named(s@),
{
    if chars_are(s, "nil") {
        Some(ValueType::Nil)
    } else if chars_are(s, "bool") {
        Some(ValueType::Bool)
    } else if chars_are(s, "i64") {
        Some(ValueType::I64)
    } else if chars_are(s, "f64") {
        Some(ValueType::F64)
    } else if chars_are(s, "string") {
        Some(ValueType::String)
    } else if chars_are(s, "array") {
        Some(ValueType::Array)
    } else if chars_are(s, "function") {
        Some(ValueType::Function)
    } else if chars_are(s, "capability") {
        Some(ValueType::Capability)
    } else if chars_are(s, "any") {
        Some(ValueType::Any)
    } else if chars_are(s, "any...") {
        Some(ValueType::AnyVariadic)
    } else {
        None
    }
}

/// The message of an unknown value type.
pub open spec fn unknown_type(s: Seq<char>) -> Seq<char> {
    "unknown value type "@ + trim(s)
}

/// The types named by `items`, or the first item that names none.
pub open spec fn types_named(items: Seq<Seq<char>>) -> Result<Seq<ValueType>, Seq<char>>
    decreases items.len(),
{
    if items.len() == 0 {
        Ok(Seq::empty())
    } else {
        match types_named(items.drop_last()) {
            Err(e) => Err(e),
            Ok(ts) => match value_type_named(trim(items.last())) {
                Some(t) => Ok(ts.push(t)),
                None => Err(items.last()),
            },
        }
    }
}

fn types_named_exec(items: &Vec<Vec<char>>) -> (r: Result<Vec<ValueType>, Vec<char>>)
    ensures
        match r {
            Ok(ts) => types_named(chars_view(items@)) == Ok::<Seq<ValueType>, Seq<char>>(ts@),
            Err(e) => types_named(chars_view(items@)) == Err::<Seq<ValueType>, Seq<char>>(e@),
        },
{
    let ghost iv = chars_view(items@);
    let mut ts: Vec<ValueType> = Vec::new();
    let mut i: usize = 0;
    while i < items.len()
        invariant
            iv == chars_view(items@),
            i <= items.len(),
            types_named(iv.subrange(0, i as int)) == Ok::<Seq<ValueType>, Seq<char>>(ts@),
        decreases items.len() - i,
    {
        assert(iv.subrange(0, i + 1).drop_last() =~= iv.subrange(0, i as int));
        assert(iv[i as int] == items@[i as int]@);
        let t = trim_chars(&items[i]);
        match value_type_named_exec(&t) {
            Some(vt) => ts.push(vt),
            None => {
                let e = slice_chars(&items[i], 0, items[i].len());
                assert(e@ =~= iv[i as int]);
                assert(types_named(iv.subrange(0, i + 1)) == Err::<Seq<ValueType>, Seq<char>>(iv[i as int]));
                proof {
                    lemma_types_named_prefix(iv, i as int + 1);
                }
                return Err(e);
            },
        }
        i = i + 1;
    }
    assert(iv.subrange(0, i as int) =~= iv);
    Ok(ts)
}

proof fn lemma_types_named_prefix(items: Seq<Seq<char>>, n: int)
    requires
        0 <= n <= items.len(),
        types_named(items.subrange(0, n)) is Err,
    ensures
        types_named(items) == types_named(items.subrange(0, n)),
    decreases items.len() - n,
{
    if n < items.len() {
        assert(items.subrange(0, n + 1).drop_last() =~= items.subrange(0, n));
        lemma_types_named_prefix(items, n + 1);
    } else {
        assert(items.subrange(0, n) =~= items);
    }
}

pub open spec fn is_ascii_alnum(c: char) -> bool {
    ('0' <= c && c <= '9') || ('a' <= c && c <= 'z') || ('A' <= c && c <= 'Z')
}

/// A capability id: letters, digits and `.`, `@`, `_`, `-`, at least one of them.
pub open spec fn valid_cap_name(s: Seq<char>) -> bool {
    s.len() > 0 && forall|i: int| 0 <= i < s.len() ==> ({
        let c = #[trigger] s[i];
        c == '.' || c == '@' || c == '_' || c == '-' || is_ascii_alnum(c)
    })
}

pub fn valid_cap_name_exec(s: &Vec<char>) -> (r: bool)
    ensures
        r == valid_cap_name(s@),
{
    if s.len() == 0 {
        return false;
    }
    let mut i: usize = 0;
    while i < s.len()
        invariant
            i <= s.len(),
            forall|k: int| 0 <= k < i ==> ({
                let c = #[trigger] s@[k];
                c == '.' || c == '@' || c == '_' || c == '-' || is_ascii_alnum(c)
            }),
        decreases s.len() - i,
    {
        let c = s[i];
        if !(c == '.' || c == '@' || c == '_' || c == '-' || ('0' <= c && c <= '9') || ('a' <= c && c <= 'z') || ('A'
            <= c && c <= 'Z')) {
            return false;
        }
        i = i + 1;
    }
    true
}

/// The first position of `c` in `s`.
#[verifier::opaque]
pub open spec fn find_char(s: Seq<char>, c: char) -> Option<int> {
    if exists|i: int| 0 <= i < s.len() && s[i] == c {
        Some(choose|i: int| 0 <= i < s.len() && s[i] == c && forall|j: int| 0 <= j < i ==> s[j] != c)
    } else {
        None
    }
}

/// The last position of `c` in `s`.
#[verifier::opaque]
pub open spec fn rfind_char(s: Seq<char>, c: char) -> Option<int> {
    if exists|i: int| 0 <= i < s.len() && s[i] == c {
        Some(choose|i: int| 0 <= i < s.len() && s[i] == c && forall|j: int| i < j < s.len() ==> s[j] != c)
    } else {
        None
    }
}

pub open spec fn pair_at(s: Seq<char>, i: int, a: char, b: char) -> bool {
    0 <= i < s.len() - 1 && s[i] == a && s[i + 1] == b
}

/// The first position where `a b` occurs in `s`.
#[verifier::opaque]
pub open spec fn find_pair(s: Seq<char>, a: char, b: char) -> Option<int> {
    if exists|i: int| #[trigger] pair_at(s, i, a, b) {
        Some(choose|i: int| #[trigger] pair_at(s, i, a, b) && forall|j: int| 0 <= j < i ==> !pair_at(s, j, a, b))
    } else {
        None
    }
}

/// What the first position of `c` in `s` is.
pub proof fn lemma_find_char(s: Seq<char>, c: char)
    ensures
        find_char(s, c) matches Some(i) ==> 0 <= i < s.len() && s[i] == c && forall|j: int| 0 <= j < i ==> s[j] != c,
        find_char(s, c) is None ==> forall|j: int| 0 <= j < s.len() ==> s[j] != c,
{
    reveal(find_char);
    if exists|i: int| 0 <= i < s.len() && s[i] == c {
        let w = choose|i: int| 0 <= i < s.len() && s[i] == c;
        lemma_first_of(s, c, w);
    }
}

proof fn lemma_first_of(s: Seq<char>, c: char, w: int)
    requires
        0 <= w < s.len(),
        s[w] == c,
    ensures
        exists|i: int| 0 <= i < s.len() && s[i] == c && forall|j: int| 0 <= j < i ==> s[j] != c,
    decreases w,
{
    if exists|j: int| 0 <= j < w && s[j] == c {
        let v = choose|j: int| 0 <= j < w && s[j] == c;
        lemma_first_of(s, c, v);
    } else {
        assert(forall|j: int| 0 <= j < w ==> s[j] != c);
    }
}

pub fn find_char_exec(s: &Vec<char>, c: char) -> (r: Option<usize>)
    ensures
        match r {
            Some(i) => find_char(s@, c) == Some(i as int) && i < s.len(),
            None => find_char(s@, c) is None,
        },
{
    proof {
        reveal(find_char);
    }
    let mut i: usize = 0;
    while i < s.len()
        invariant
            i <= s.len(),
            forall|j: int| 0 <= j < i ==> s@[j] != c,
        decreases s.len() - i,
    {
        if s[i] == c {
            proof {
                reveal(find_char);
                assert(exists|j: int| 0 <= j < s@.len() && s@[j] == c) by {
                    assert(s@[i as int] == c);
                }
                let k = choose|k: int| 0 <= k < s@.len() && s@[k] == c && forall|j: int| 0 <= j < k ==> s@[j] != c;
                assert(0 <= i < s@.len() && s@[i as int] == c && forall|j: int| 0 <= j < i ==> s@[j] != c);
                assert(k == i as int) by {
                    if k > i {
                        assert(s@[i as int] == c);
                    }
                }
            }
            return Some(i);
        }
        i = i + 1;
    }
    None
}

pub fn rfind_char_exec(s: &Vec<char>, c: char) -> (r: Option<usize>)
    ensures
        match r {
            Some(i) => rfind_char(s@, c) == Some(i as int) && i < s.len(),
            None => rfind_char(s@, c) is None,
        },
{
    proof {
        reveal(rfind_char);
    }
    let mut i: usize = s.len();
    while i > 0
        invariant
            i <= s.len(),
            forall|j: int| i <= j < s.len() ==> s@[j] != c,
        decreases i,
    {
        if s[i - 1] == c {
            proof {
                reveal(rfind_char);
                let w = i - 1;
                assert(exists|j: int| 0 <= j < s@.len() && s@[j] == c) by {
                    assert(s@[w] == c);
                }
                let k = choose|k: int| 0 <= k < s@.len() && s@[k] == c && forall|j: int| k < j < s@.len() ==> s@[j] != c;
                assert(k == w) by {
                    if k < w {
                        assert(s@[w] == c);
                    }
                }
            }
            return Some(i - 1);
        }
        i = i - 1;
    }
    None
}

pub fn find_pair_exec(s: &Vec<char>, a: char, b: char) -> (r: Option<usize>)
    ensures
        match r {
            Some(i) => find_pair(s@, a, b) == Some(i as int) && i + 1 < s.len(),
            None => find_pair(s@, a, b) is None,
        },
{
    proof {
        reveal(find_pair);
    }
    let mut i: usize = 0;
    while i < s.len() && i + 1 < s.len()
        invariant
            i <= s.len(),
            forall|j: int| 0 <= j < i ==> !pair_at(s@, j, a, b),
        decreases s.len() - i,
    {
        if s[i] == a && s[i + 1] == b {
            proof {
                reveal(find_pair);
                assert(pair_at(s@, i as int, a, b));
                let k = choose|k: int| #[trigger] pair_at(s@, k, a, b) && forall|j: int| 0 <= j < k ==> !pair_at(s@, j, a, b);
                assert(k == i as int) by {
                    if k > i {
                        assert(pair_at(s@, i as int, a, b));
                    }
                }
            }
            return Some(i);
        }
        i = i + 1;
    }
    assert forall|j: int| !pair_at(s@, j, a, b) by {
        if 0 <= j < i {
        }
    }
    None
}

/// The text up to the first white-space character and, when there is one, the text after it
/// (`str::splitn(2, char::is_whitespace)`).
#[verifier::opaque]
pub open spec fn split_first_ws(s: Seq<char>) -> (Seq<char>, Option<Seq<char>>) {
    match first_ws(s) {
        Some(k) => (s.subrange(0, k), Some(s.subrange(k + 1, s.len() as int))),
        None => (s, None),
    }
}

#[verifier::opaque]
pub open spec fn first_ws(s: Seq<char>) -> Option<int> {
    if exists|i: int| 0 <= i < s.len() && is_ws(s[i]) {
        Some(choose|i: int| 0 <= i < s.len() && is_ws(s[i]) && forall|j: int| 0 <= j < i ==> !is_ws(s[j]))
    } else {
        None
    }
}

pub fn first_ws_exec(s: &Vec<char>) -> (r: Option<usize>)
    ensures
        match r {
            Some(i) => first_ws(s@) == Some(i as int) && i < s.len(),
            None => first_ws(s@) is None,
        },
{
    proof {
        reveal(first_ws);
    }
    let mut i: usize = 0;
    while i < s.len()
        invariant
            i <= s.len(),
            forall|j: int| 0 <= j < i ==> !is_ws(s@[j]),
        decreases s.len() - i,
    {
        if is_ws_exec(s[i]) {
            proof {
                reveal(first_ws);
                assert(exists|j: int| 0 <= j < s@.len() && is_ws(s@[j])) by {
                    assert(is_ws(s@[i as int]));
                }
                let k = choose|k: int| 0 <= k < s@.len() && is_ws(s@[k]) && forall|j: int| 0 <= j < k ==> !is_ws(s@[j]);
                assert(k == i as int) by {
                    if k > i {
                        assert(is_ws(s@[i as int]));
                    }
                }
            }
            return Some(i);
        }
        i = i + 1;
    }
    None
}

/// The id, parameter types and the text after `->` of a capability declaration, or the
/// message of the first problem.
pub open spec fn cap_sig(input: Seq<char>) -> Result<(Seq<char>, Seq<ValueType>, Seq<char>), Seq<char>> {
    match find_pair(input, '-', '>') {
        None => Err("cap expects id(params) -> return_type"@),
        Some(k) => {
            let sig = input.subrange(0, k);
            let tail = input.subrange(k + 2, input.len() as int);
            match find_char(sig, '(') {
                None => Err("cap signature expects id(params)"@),
                Some(open) => match rfind_char(sig, ')') {
                    None => Err("cap signature missing ')'"@),
                    Some(close) => if close < open + 1 {
                        Err("cap signature missing ')'"@)
                    } else {
                        let id = trim(sig.subrange(0, open));
                        if !valid_cap_name(id) {
                            Err("invalid capability name "@ + id)
                        } else {
                            match split_args(sig.subrange(open + 1, close)) {
                                None => Err("unterminated expression list"@),
                                Some(items) => match types_named(items) {
                                    Err(bad) => Err(unknown_type(bad)),
                                    Ok(params) => Ok((id, params, tail)),
                                },
                            }
                        }
                    },
                },
            }
        },
    }
}

/// The return type and the reason after `->`.
pub open spec fn cap_tail(tail: Seq<char>, keyed: bool) -> Result<(ValueType, Option<Seq<char>>), Seq<char>> {
    let (first, rest) = split_first_ws(trim(tail));
    match value_type_named(trim(first)) {
        None => Err(unknown_type(first)),
        Some(ret) => match cap_reason(rest, keyed) {
            Err(m) => Err(m),
            Ok(reason) => Ok((ret, reason)),
        },
    }
}

/// A capability declaration `id(params) -> type`, then an optional reason: a quoted string,
/// written `reason="..."` when `keyed`. The message of the first problem otherwise.
pub open spec fn cap_decl(input: Seq<char>, keyed: bool) -> Result<CapabilityDeclV, Seq<char>> {
    match cap_sig(input) {
        Err(m) => Err(m),
        Ok((id, params, tail)) => match cap_tail(tail, keyed) {
            Err(m) => Err(m),
            Ok((ret, reason)) => Ok(CapabilityDeclV { id, params, return_type: ret, reason }),
        },
    }
}

/// The reason after a declaration's return type.
pub open spec fn cap_reason(rest: Option<Seq<char>>, keyed: bool) -> Result<Option<Seq<char>>, Seq<char>> {
    match rest {
        None => Ok(None),
        Some(r) => {
            let t = trim(r);
            if t.len() == 0 {
                Ok(None)
            } else {
                let q = if keyed && has_prefix(t, "reason="@) {
                    trim(t.subrange(7, t.len() as int))
                } else {
                    t
                };
                if keyed && !has_prefix(t, "reason="@) {
                    Err("expected reason=\"...\""@)
                } else {
                    match unquote(q) {
                        Some(text) => Ok(Some(text)),
                        None => Err("expected quoted string"@),
                    }
                }
            }
        },
    }
}


/// `prefix` followed by the characters `cs`.
pub fn msg_with(prefix: &str, cs: &Vec<char>) -> (r: String)
    ensures
        r@ == prefix@ + cs@,
{
    let mut out = String::from_str(prefix);
    out.append(string_of_chars(cs).as_str());
    out
}

fn cap_reason_exec(rest: Option<Vec<char>>, keyed: bool) -> (r: Result<Option<String>, String>)
    ensures
        match r {
            Ok(None) => cap_reason(opt_chars(rest), keyed) == Ok::<Option<Seq<char>>, Seq<char>>(None),
            Ok(Some(t)) => cap_reason(opt_chars(rest), keyed) == Ok::<Option<Seq<char>>, Seq<char>>(Some(t@)),
            Err(m) => cap_reason(opt_chars(rest), keyed) == Err::<Option<Seq<char>>, Seq<char>>(m@),
        },
{
    match rest {
        None => Ok(None),
        Some(r) => {
            let t = trim_chars(&r);
            if t.len() == 0 {
                return Ok(None);
            }
            let prefixed = has_prefix_exec(&t, "reason=");
            if keyed && !prefixed {
                return Err(String::from_str("expected reason=\"...\""));
            }
            let q = if keyed && prefixed {
                proof {
                    reveal_strlit("reason=");
                }
                let after = slice_chars(&t, 7, t.len());
                trim_chars(&after)
            } else {
                t
            };
            match unquote_exec(&q) {
                Some(text) => Ok(Some(string_of_chars(&text))),
                None => Err(String::from_str("expected quoted string")),
            }
        },
    }
}

pub open spec fn opt_chars(o: Option<Vec<char>>) -> Option<Seq<char>> {
    match o {
        Some(v) => Some(v@),
        None => None,
    }
}

fn cap_sig_exec(input: &Vec<char>) -> (r: Result<(Vec<char>, Vec<ValueType>, Vec<char>), String>)
    ensures
        match r {
            Ok((id, ps, tail)) => cap_sig(input@) == Ok::<(Seq<char>, Seq<ValueType>, Seq<char>), Seq<char>>((id@, ps@, tail@)),
            Err(m) => cap_sig(input@) == Err::<(Seq<char>, Seq<ValueType>, Seq<char>), Seq<char>>(m@),
        },
{
    let k = match find_pair_exec(input, '-', '>') {
        None => return Err(String::from_str("cap expects id(params) -> return_type")),
        Some(k) => k,
    };
    let sig = slice_chars(input, 0, k);
    let tail = slice_chars(input, k + 2, input.len());
    let open = match find_char_exec(&sig, '(') {
        None => return Err(String::from_str("cap signature expects id(params)")),
        Some(o) => o,
    };
    let close = match rfind_char_exec(&sig, ')') {
        None => return Err(String::from_str("cap signature missing ')'")),
        Some(c) => c,
    };
    if close < open + 1 {
        return Err(String::from_str("cap signature missing ')'"));
    }
    let (a, b) = trim_bounds(&sig, 0, open);
    let id = slice_chars(&sig, a, b);
    if !valid_cap_name_exec(&id) {
        return Err(msg_with("invalid capability name ", &id));
    }
    let inner = slice_chars(&sig, open + 1, close);
    let items = match split_args_exec(&inner) {
        None => return Err(String::from_str("unterminated expression list")),
        Some(items) => items,
    };
    let params = match types_named_exec(&items) {
        Err(bad) => {
            let t = trim_chars(&bad);
            return Err(msg_with("unknown value type ", &t));
        },
        Ok(ts) => ts,
    };
    Ok((id, params, tail))
}

fn cap_tail_exec(tail: &Vec<char>, keyed: bool) -> (r: Result<(ValueType, Option<String>), String>)
    ensures
        match r {
            Ok((t, reason)) => cap_tail(tail@, keyed) == Ok::<(ValueType, Option<Seq<char>>), Seq<char>>((
                t,
                crate::bytecode::opt_string_view(reason),
            )),
            Err(m) => cap_tail(tail@, keyed) == Err::<(ValueType, Option<Seq<char>>), Seq<char>>(m@),
        },
{
    let tt = trim_chars(tail);
    let (first, rest) = match first_ws_exec(&tt) {
        Some(w) => (slice_chars(&tt, 0, w), Some(slice_chars(&tt, w + 1, tt.len()))),
        None => (slice_chars(&tt, 0, tt.len()), None),
    };
    proof {
        reveal(split_first_ws);
    }
    assert(tt@.subrange(0, tt.len() as int) =~= tt@);
    assert((first@, opt_chars(rest)) == split_first_ws(tt@));
    let ft = trim_chars(&first);
    let ret = match value_type_named_exec(&ft) {
        None => return Err(msg_with("unknown value type ", &ft)),
        Some(t) => t,
    };
    match cap_reason_exec(rest, keyed) {
        Err(m) => Err(m),
        Ok(r) => Ok((ret, r)),
    }
}

/// Parses a capability declaration (see [`cap_decl`]).
pub fn cap_decl_exec(input: &Vec<char>, keyed: bool) -> (r: Result<crate::bytecode::CapabilityDecl, String>)
    ensures
        match r {
            Ok(d) => cap_decl(input@, keyed) == Ok::<CapabilityDeclV, Seq<char>>(d@),
            Err(m) => cap_decl(input@, keyed) == Err::<CapabilityDeclV, Seq<char>>(m@),
        },
{
    let (id, params, tail) = match cap_sig_exec(input) {
        Err(m) => return Err(m),
        Ok(x) => x,
    };
    let (ret, reason) = match cap_tail_exec(&tail, keyed) {
        Err(m) => return Err(m),
        Ok(x) => x,
    };
    Ok(crate::bytecode::CapabilityDecl { id: string_of_chars(&id), params, return_type: ret, reason })
}

} // verus!
