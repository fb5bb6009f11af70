use vstd::prelude::*;
use vstd::string::StrSliceExecFns;

verus! {

/// Characters that separate the tokens of a line.
pub open spec fn is_sep(c: char) -> bool {
    c == ' ' || c == '\t' || c == ',' || c == '\r'
}

/// Index of the first newline at or after `p`, or the length of `t`.
pub open spec fn line_end(t: Seq<char>, p: int) -> int
    decreases t.len() - p,
{
    if p >= t.len() || t[p] == '\n' {
        p
    } else {
        line_end(t, p + 1)
    }
}

/// Index of the first comment mark (`;`) in `p..e`, or `e`.
pub open spec fn content_end(t: Seq<char>, p: int, e: int) -> int
    decreases e - p,
{
    if p >= e || t[p] == ';' {
        p
    } else {
        content_end(t, p + 1, e)
    }
}

pub open spec fn skip_seps(t: Seq<char>, p: int, e: int) -> int
    decreases e - p,
{
    if p >= e || !is_sep(t[p]) {
        p
    } else {
        skip_seps(t, p + 1, e)
    }
}

pub open spec fn token_end(t: Seq<char>, p: int, e: int) -> int
    decreases e - p,
{
    if p >= e || is_sep(t[p]) {
        p
    } else {
        token_end(t, p + 1, e)
    }
}

pub proof fn lemma_scan_bounds(t: Seq<char>, p: int, e: int)
    requires
        p <= e,
    ensures
        p <= content_end(t, p, e) <= e,
        p <= skip_seps(t, p, e) <= e,
        p <= token_end(t, p, e) <= e,
    decreases e - p,
{
    if p < e {
        lemma_scan_bounds(t, p + 1, e);
    }
}

pub proof fn lemma_line_end_bounds(t: Seq<char>, p: int)
    requires
        0 <= p <= t.len(),
    ensures
        p <= line_end(t, p) <= t.len(),
    decreases t.len() - p,
{
    if p < t.len() {
        lemma_line_end_bounds(t, p + 1);
    }
}

/// The tokens of `t[p..e]`: maximal runs of non-separator characters.
pub open spec fn tokens(t: Seq<char>, p: int, e: int) -> Seq<Seq<char>>
    decreases e - p,
{
    let s = skip_seps(t, p, e);
    if p < 0 || p >= e || e > t.len() || s >= e || s < p {
        Seq::empty()
    } else {
        let k = token_end(t, s, e);
        if k <= p || k > e {
            Seq::empty()
        } else {
            seq![t.subrange(s, k)] + tokens(t, k, e)
        }
    }
}

pub fn line_end_exec(t: &Vec<char>, p: usize) -> (r: usize)
    requires
        p <= t.len(),
    ensures
        r == line_end(t@, p as int),
        p <= r <= t.len(),
{
    proof {
        lemma_line_end_bounds(t@, p as int);
    }
    let mut i = p;
    while i < t.len() && t[i] != '\n'
        invariant
            p <= i <= t.len(),
            line_end(t@, p as int) == line_end(t@, i as int),
        decreases t.len() - i,
    {
        i += 1;
    }
    i
}

pub fn content_end_exec(t: &Vec<char>, p: usize, e: usize) -> (r: usize)
    requires
        p <= e <= t.len(),
    ensures
        r == content_end(t@, p as int, e as int),
        p <= r <= e,
{
    proof {
        lemma_scan_bounds(t@, p as int, e as int);
    }
    let mut i = p;
    while i < e && t[i] != ';'
        invariant
            p <= i <= e <= t.len(),
            content_end(t@, p as int, e as int) == content_end(t@, i as int, e as int),
        decreases e - i,
    {
        i += 1;
    }
    i
}

fn is_sep_exec(c: char) -> (r: bool)
    ensures
        r == is_sep(c),
{
    c == ' ' || c == '\t' || c == ',' || c == '\r'
}

/// The tokens of `t[p..e]`.
pub fn tokens_exec(t: &Vec<char>, p: usize, e: usize) -> (r: Vec<Vec<char>>)
    requires
        p <= e <= t.len(),
    ensures
        r@.map_values(|x: Vec<char>| x@) == tokens(t@, p as int, e as int),
{
    let mut out: Vec<Vec<char>> = Vec::new();
    let mut i = p;
    while i < e
        invariant
            p <= i <= e <= t.len(),
            tokens(t@, p as int, e as int) == out@.map_values(|x: Vec<char>| x@) + tokens(
                t@,
                i as int,
                e as int,
            ),
        decreases e - i,
    {
        proof {
            lemma_scan_bounds(t@, i as int, e as int);
        }
        let mut s = i;
        while s < e && is_sep_exec(t[s])
            invariant
                i <= s <= e <= t.len(),
                skip_seps(t@, i as int, e as int) == skip_seps(t@, s as int, e as int),
            decreases e - s,
        {
            s += 1;
        }
        if s >= e {
            assert(tokens(t@, i as int, e as int) =~= Seq::<Seq<char>>::empty());
            assert(out@.map_values(|x: Vec<char>| x@) + Seq::<Seq<char>>::empty() =~= out@.map_values(
                |x: Vec<char>| x@,
            ));
            return out;
        }
        proof {
            lemma_scan_bounds(t@, s as int, e as int);
        }
        let mut k = s;
        let mut tok: Vec<char> = Vec::new();
        while k < e && !is_sep_exec(t[k])
            invariant
                s <= k <= e <= t.len(),
                token_end(t@, s as int, e as int) == token_end(t@, k as int, e as int),
                tok@ == t@.subrange(s as int, k as int),
            decreases e - k,
        {
            tok.push(t[k]);
            assert(tok@ =~= t@.subrange(s as int, k + 1));
            k += 1;
        }
        let ghost before = out@.map_values(|x: Vec<char>| x@);
        let ghost tv = tok@;
        out.push(tok);
        assert(out@.map_values(|x: Vec<char>| x@) =~= before.push(tv));
        assert(before.push(tv) + tokens(t@, k as int, e as int) =~= before + (seq![tv] + tokens(
            t@,
            k as int,
            e as int,
        )));
        i = k;
    }
    assert(tokens(t@, i as int, e as int) =~= Seq::<Seq<char>>::empty());
    assert(out@.map_values(|x: Vec<char>| x@) + Seq::<Seq<char>>::empty() =~= out@.map_values(
        |x: Vec<char>| x@,
    ));
    out
}

/// Whether token `tok` spells `lit`.
pub fn eq_lit(tok: &Vec<char>, lit: &str) -> (r: bool)
    ensures
        r == (tok@ == lit@),
{
    let n = lit.unicode_len();
    if tok.len() != n {
        return false;
    }
    let mut i: usize = 0;
    while i < n
        invariant
            n == lit@.len(),
            tok.len() == n,
            0 <= i <= n,
            forall|k: int| 0 <= k < i ==> tok@[k] == lit@[k],
        decreases n - i,
    {
        if tok[i] != lit.get_char(i) {
            return false;
        }
        i += 1;
    }
    assert(tok@ =~= lit@);
    true
}

// ---- operands ----

pub open spec fn is_digit(c: char) -> bool {
    '0' <= c && c <= '9'
}

pub open spec fn is_ident_char(c: char) -> bool {
    ('a' <= c && c <= 'z') || ('A' <= c && c <= 'Z') || is_digit(c) || c == '_' || c == '.'
}

/// A label name: up to 65535 letters, digits, `_` or `.`, not starting with a
/// digit.
pub open spec fn is_ident(tok: Seq<char>) -> bool {
    &&& 0 < tok.len() <= 65535
    &&& !is_digit(tok[0])
    &&& forall|i: int| 0 <= i < tok.len() ==> is_ident_char(#[trigger] tok[i])
}

/// The bytes of an identifier (all its characters are ASCII).
pub open spec fn ident_bytes(tok: Seq<char>) -> Seq<u8> {
    tok.map_values(|c: char| (c as u32) as u8)
}

pub open spec fn all_digits(tok: Seq<char>) -> bool {
    &&& tok.len() > 0
    &&& forall|i: int| 0 <= i < tok.len() ==> is_digit(#[trigger] tok[i])
}

pub open spec fn digit_value(c: char) -> int {
    (c as u32) - ('0' as u32)
}

/// The value of a run of decimal digits.
pub open spec fn decimal_value(tok: Seq<char>) -> int
    decreases tok.len(),
{
    if tok.len() == 0 {
        0
    } else {
        decimal_value(tok.drop_last()) * 10 + digit_value(tok.last())
    }
}

fn is_ident_char_exec(c: char) -> (r: bool)
    ensures
        r == is_ident_char(c),
{
    ('a' <= c && c <= 'z') || ('A' <= c && c <= 'Z') || ('0' <= c && c <= '9') || c == '_' || c
        == '.'
}

pub fn is_ident_exec(tok: &Vec<char>) -> (r: bool)
    ensures
        r == is_ident(tok@),
{
    if tok.len() == 0 || tok.len() > 65535 || ('0' <= tok[0] && tok[0] <= '9') {
        return false;
    }
    let mut i: usize = 0;
    while i < tok.len()
        invariant
            0 <= i <= tok.len(),
            forall|k: int| 0 <= k < i ==> is_ident_char(#[trigger] tok@[k]),
        decreases tok.len() - i,
    {
        if !is_ident_char_exec(tok[i]) {
            return false;
        }
        i += 1;
    }
    true
}

pub fn ident_bytes_exec(tok: &Vec<char>) -> (r: Vec<u8>)
    ensures
        r@ == ident_bytes(tok@),
{
    let mut out: Vec<u8> = Vec::new();
    let mut i: usize = 0;
    while i < tok.len()
        invariant
            0 <= i <= tok.len(),
            out@ == ident_bytes(tok@.subrange(0, i as int)),
        decreases tok.len() - i,
    {
        out.push((tok[i] as u32) as u8);
        assert(ident_bytes(tok@.subrange(0, i + 1)) =~= ident_bytes(tok@.subrange(0, i as int)).push(
            (tok@[i as int] as u32) as u8,
        ));
        i += 1;
    }
    assert(tok@.subrange(0, tok.len() as int) =~= tok@);
    out
}

pub fn all_digits_exec(tok: &Vec<char>) -> (r: bool)
    ensures
        r == all_digits(tok@),
{
    if tok.len() == 0 {
        return false;
    }
    let mut i: usize = 0;
    while i < tok.len()
        invariant
            0 <= i <= tok.len(),
            forall|k: int| 0 <= k < i ==> is_digit(#[trigger] tok@[k]),
        decreases tok.len() - i,
    {
        if !('0' <= tok[i] && tok[i] <= '9') {
            return false;
        }
        i += 1;
    }
    true
}

proof fn lemma_decimal_mono(tok: Seq<char>, n: int)
    requires
        0 <= n <= tok.len(),
        forall|i: int| 0 <= i < tok.len() ==> is_digit(#[trigger] tok[i]),
    ensures
        0 <= decimal_value(tok.subrange(0, n)) <= decimal_value(tok),
    decreases tok.len() - n,
{
    if n < tok.len() {
        let init = tok.drop_last();
        assert forall|i: int| 0 <= i < init.len() implies is_digit(#[trigger] init[i]) by {
            assert(init[i] == tok[i]);
        }
        lemma_decimal_mono(init, n);
        assert(init.subrange(0, n) =~= tok.subrange(0, n));
        assert(is_digit(tok[tok.len() - 1]));
        lemma_decimal_mono(init, init.len() as int);
        assert(init.subrange(0, init.len() as int) =~= init);
    } else {
        assert(tok.subrange(0, n) =~= tok);
        lemma_decimal_nonneg(tok);
    }
}

proof fn lemma_decimal_nonneg(tok: Seq<char>)
    requires
        forall|i: int| 0 <= i < tok.len() ==> is_digit(#[trigger] tok[i]),
    ensures
        0 <= decimal_value(tok),
    decreases tok.len(),
{
    if tok.len() > 0 {
        let init = tok.drop_last();
        assert forall|i: int| 0 <= i < init.len() implies is_digit(#[trigger] init[i]) by {
            assert(init[i] == tok[i]);
        }
        lemma_decimal_nonneg(init);
        assert(is_digit(tok[tok.len() - 1]));
    }
}

/// The value of a run of digits when it is at most `limit`.
pub fn decimal_value_exec(tok: &Vec<char>, limit: u32) -> (r: Option<u32>)
    requires
        all_digits(tok@),
    ensures
        match r {
            Some(v) => v == decimal_value(tok@) && v <= limit,
            None => decimal_value(tok@) > limit,
        },
{
    let mut v: u64 = 0;
    let mut i: usize = 0;
    while i < tok.len()
        invariant
            all_digits(tok@),
            0 <= i <= tok.len(),
            v == decimal_value(tok@.subrange(0, i as int)),
            v <= limit,
        decreases tok.len() - i,
    {
        assert(tok@.subrange(0, i + 1).drop_last() =~= tok@.subrange(0, i as int));
        assert(is_digit(tok@[i as int]));
        let d = (tok[i] as u32 - '0' as u32) as u64;
        v = v * 10 + d;
        if v > limit as u64 {
            proof {
                lemma_decimal_mono(tok@, i + 1);
            }
            return None;
        }
        i += 1;
    }
    assert(tok@.subrange(0, tok.len() as int) =~= tok@);
    Some(v as u32)
}

} // verus!
