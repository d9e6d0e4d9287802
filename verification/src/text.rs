use vstd::prelude::*;

verus! {

/// The ASCII whitespace characters that separate tokens on a rule line.
pub open spec fn is_ws(c: char) -> bool {
    c == ' ' || c == '\t' || c == '\n' || c == '\r' || c == '\x0c'
}

/// First position at or after `i` holding a non-whitespace character
/// (or the end of `s`).
pub open spec fn ws_end(s: Seq<char>, i: int) -> int
    decreases s.len() - i when 0 <= i <= s.len()
{
    if i == s.len() || !is_ws(s[i]) {
        i
    } else {
        ws_end(s, i + 1)
    }
}

/// First position at or after `i` holding a whitespace character
/// (or the end of `s`).
pub open spec fn tok_end(s: Seq<char>, i: int) -> int
    decreases s.len() - i when 0 <= i <= s.len()
{
    if i == s.len() || is_ws(s[i]) {
        i
    } else {
        tok_end(s, i + 1)
    }
}

proof fn lemma_ws_end_bounds(s: Seq<char>, i: int)
    requires
        0 <= i <= s.len(),
    ensures
        i <= ws_end(s, i) <= s.len(),
        ws_end(s, i) == s.len() || !is_ws(s[ws_end(s, i)]),
    decreases s.len() - i,
{
    if i < s.len() && is_ws(s[i]) {
        lemma_ws_end_bounds(s, i + 1);
    }
}

proof fn lemma_tok_end_bounds(s: Seq<char>, i: int)
    requires
        0 <= i <= s.len(),
    ensures
        i <= tok_end(s, i) <= s.len(),
        tok_end(s, i) == s.len() || is_ws(s[tok_end(s, i)]),
        i < s.len() && !is_ws(s[i]) ==> tok_end(s, i) > i,
    decreases s.len() - i,
{
    if i < s.len() && !is_ws(s[i]) {
        lemma_tok_end_bounds(s, i + 1);
    }
}

/// The whitespace-separated tokens of `s`, starting the scan at position `i`.
pub open spec fn tokens_from(s: Seq<char>, i: int) -> Seq<Seq<char>>
    decreases s.len() - i when 0 <= i <= s.len() via tokens_from_decreases
{
    let j = ws_end(s, i);
    if j == s.len() {
        seq![]
    } else {
        let k = tok_end(s, j);
        seq![s.subrange(j, k)] + tokens_from(s, k)
    }
}

#[via_fn]
proof fn tokens_from_decreases(s: Seq<char>, i: int) {
    lemma_ws_end_bounds(s, i);
    let j = ws_end(s, i);
    if j < s.len() {
        lemma_tok_end_bounds(s, j);
    }
}

/// The tokens of `s`, scanned from its start.
pub open spec fn tokens_of(s: Seq<char>) -> Seq<Seq<char>> {
    tokens_from(s, 0)
}

/// The views of a sequence of character vectors.
pub open spec fn views_of(ts: Seq<Vec<char>>) -> Seq<Seq<char>> {
    ts.map_values(|t: Vec<char>| t@)
}

fn is_ws_exec(c: char) -> (r: bool)
    ensures
        r == is_ws(c),
{
    c == ' ' || c == '\t' || c == '\n' || c == '\r' || c == '\x0c'
}

proof fn lemma_tokens_from_ws_step(s: Seq<char>, i: int)
    requires
        0 <= i < s.len(),
        is_ws(s[i]),
    ensures
        tokens_from(s, i) == tokens_from(s, i + 1),
{
    assert(ws_end(s, i) == ws_end(s, i + 1));
}

proof fn lemma_tok_end_from_range(s: Seq<char>, i: int, j: int)
    requires
        0 <= i <= j <= s.len(),
        forall|x: int| i <= x < j ==> !is_ws(s[x]),
        j == s.len() || is_ws(s[j]),
    ensures
        tok_end(s, i) == j,
    decreases j - i,
{
    if i < j {
        lemma_tok_end_from_range(s, i + 1, j);
    }
}

/// Split a line into its whitespace-separated tokens, in order.
pub fn tokenize(line: &Vec<char>) -> (r: Vec<Vec<char>>)
    ensures
        views_of(r@) == tokens_of(line@),
{
    let ghost s = line@;
    let n = line.len();
    let mut toks: Vec<Vec<char>> = Vec::new();
    let mut i: usize = 0;
    while i < n
        invariant
            n == s.len(),
            s == line@,
            0 <= i <= n,
            tokens_from(s, 0) == views_of(toks@) + tokens_from(s, i as int),
        decreases n - i,
    {
        if is_ws_exec(line[i]) {
            proof {
                lemma_tokens_from_ws_step(s, i as int);
            }
            i += 1;
        } else {
            let ghost start = i as int;
            let mut tok: Vec<char> = Vec::new();
            let mut j: usize = i;
            while j < n && !is_ws_exec(line[j])
                invariant
                    n == s.len(),
                    s == line@,
                    0 <= start <= j <= n,
                    i == start,
                    tok@ == s.subrange(start, j as int),
                    forall|x: int| start <= x < j ==> !is_ws(s[x]),
                decreases n - j,
            {
                tok.push(line[j]);
                proof {
                    assert(tok@ =~= s.subrange(start, j + 1));
                }
                j += 1;
            }
            proof {
                lemma_tok_end_from_range(s, start, j as int);
                assert(ws_end(s, start) == start);
                assert(tokens_from(s, start) == seq![s.subrange(start, j as int)]
                    + tokens_from(s, j as int));
                assert(views_of(toks@.push(tok)) =~= views_of(toks@) + seq![tok@]);
                assert(views_of(toks@.push(tok)) + tokens_from(s, j as int)
                    =~= views_of(toks@) + tokens_from(s, start));
            }
            toks.push(tok);
            i = j;
        }
    }
    proof {
        assert(tokens_from(s, n as int) =~= seq![]);
        assert(views_of(toks@) + tokens_from(s, n as int) =~= views_of(toks@));
    }
    toks
}

/// The command string formed by the given tokens: each token followed by
/// one space, so a trailing space remains.
pub open spec fn join_cmd(toks: Seq<Seq<char>>) -> Seq<char>
    decreases toks.len(),
{
    if toks.len() == 0 {
        seq![]
    } else {
        join_cmd(toks.drop_last()) + toks.last() + seq![' ']
    }
}

/// Join the tokens from position `start` on into one command string,
/// each token followed by a single space.
pub fn join_tokens(toks: &Vec<Vec<char>>, start: usize) -> (r: Vec<char>)
    requires
        start <= toks@.len(),
    ensures
        r@ == join_cmd(views_of(toks@).subrange(start as int, toks@.len() as int)),
{
    let n = toks.len();
    let mut r: Vec<char> = Vec::new();
    let mut k: usize = start;
    proof {
        assert(views_of(toks@).subrange(start as int, start as int) =~= seq![]);
    }
    while k < n
        invariant
            start <= k <= n,
            n == toks@.len(),
            r@ == join_cmd(views_of(toks@).subrange(start as int, k as int)),
        decreases n - k,
    {
        let ghost before = r@;
        let tlen = toks[k].len();
        let mut m: usize = 0;
        while m < tlen
            invariant
                0 <= m <= tlen,
                k < n,
                n == toks@.len(),
                tlen == toks@[k as int]@.len(),
                r@ == before + toks@[k as int]@.subrange(0, m as int),
            decreases tlen - m,
        {
            r.push(toks[k][m]);
            proof {
                assert(r@ =~= before + toks@[k as int]@.subrange(0, m + 1));
            }
            m += 1;
        }
        r.push(' ');
        proof {
            let vs = views_of(toks@);
            assert(toks@[k as int]@.subrange(0, tlen as int) =~= vs[k as int]);
            assert(vs.subrange(start as int, k + 1).drop_last()
                =~= vs.subrange(start as int, k as int));
            assert(r@ =~= join_cmd(vs.subrange(start as int, k as int)) + vs[k as int]
                + seq![' ']);
        }
        k += 1;
    }
    r
}

/// A decimal digit character.
pub open spec fn is_digit(c: char) -> bool {
    48 <= c as u32 <= 57
}

pub open spec fn digit_val(c: char) -> int {
    c as u32 - 48
}

pub open spec fn all_digits(s: Seq<char>) -> bool {
    forall|i: int| 0 <= i < s.len() ==> is_digit(s[i])
}

/// The value of a string of decimal digits.
pub open spec fn digits_val(s: Seq<char>) -> int
    decreases s.len(),
{
    if s.len() == 0 {
        0
    } else {
        digits_val(s.drop_last()) * 10 + digit_val(s.last())
    }
}

/// The integer a token denotes: an optional sign, then one or more decimal
/// digits, with the value in the range of `i32`; anything else is no integer.
pub open spec fn parse_i32_spec(s: Seq<char>) -> Option<int> {
    let signed = s.len() > 0 && (s[0] == '-' || s[0] == '+');
    let ds = if signed {
        s.drop_first()
    } else {
        s
    };
    let neg = s.len() > 0 && s[0] == '-';
    if ds.len() == 0 || !all_digits(ds) {
        None
    } else {
        let v = if neg {
            -digits_val(ds)
        } else {
            digits_val(ds)
        };
        if -0x8000_0000 <= v <= 0x7fff_ffff {
            Some(v)
        } else {
            None
        }
    }
}

proof fn lemma_digits_val_nonneg(s: Seq<char>)
    requires
        all_digits(s),
    ensures
        digits_val(s) >= 0,
    decreases s.len(),
{
    if s.len() > 0 {
        assert(all_digits(s.drop_last()));
        lemma_digits_val_nonneg(s.drop_last());
    }
}

proof fn lemma_digits_val_prefix(s: Seq<char>, m: int)
    requires
        all_digits(s),
        0 <= m <= s.len(),
    ensures
        digits_val(s.subrange(0, m)) <= digits_val(s),
    decreases s.len(),
{
    if m == s.len() {
        assert(s.subrange(0, m) =~= s);
    } else {
        let d = s.drop_last();
        assert(all_digits(d));
        assert(s.subrange(0, m) =~= d.subrange(0, m));
        lemma_digits_val_prefix(d, m);
        lemma_digits_val_nonneg(d);
    }
}

/// Parse a token as a decimal `i32` (optional sign, digits only).
pub fn parse_i32(tok: &Vec<char>) -> (r: Option<i32>)
    ensures
        match r {
            Some(v) => parse_i32_spec(tok@) == Some(v as int),
            None => parse_i32_spec(tok@) is None,
        },
{
    let n = tok.len();
    if n == 0 {
        return None;
    }
    let c0 = tok[0];
    let neg = c0 == '-';
    let start: usize = if c0 == '-' || c0 == '+' {
        1
    } else {
        0
    };
    let ghost ds = if start == 1 {
        tok@.drop_first()
    } else {
        tok@
    };
    proof {
        assert(ds =~= tok@.subrange(start as int, n as int));
    }
    if n == start {
        return None;
    }
    let mut acc: i64 = 0;
    let mut k: usize = start;
    proof {
        assert(ds.subrange(0, 0) =~= Seq::<char>::empty());
    }
    while k < n
        invariant
            start <= k <= n,
            start < n,
            n == tok@.len(),
            start == 0 || start == 1,
            (start == 1) == (tok@[0] == '-' || tok@[0] == '+'),
            neg == (tok@[0] == '-'),
            ds == (if start == 1 {
                tok@.drop_first()
            } else {
                tok@
            }),
            ds == tok@.subrange(start as int, n as int),
            all_digits(ds.subrange(0, k - start)),
            acc == digits_val(ds.subrange(0, k - start)),
            0 <= acc <= 0x8000_0000,
        decreases n - k,
    {
        let u = tok[k] as u32;
        proof {
            assert(ds[k - start] == tok@[k as int]);
        }
        if u < 48 || u > 57 {
            proof {
                assert(!is_digit(ds[k - start]));
            }
            return None;
        }
        let d = (u - 48) as i64;
        let acc2: i64 = acc * 10 + d;
        proof {
            assert(is_digit(ds[k - start]));
            assert(digit_val(ds[k - start]) == d as int);
            assert(ds.subrange(0, k - start + 1).drop_last() =~= ds.subrange(0, k - start));
            assert(ds.subrange(0, k - start + 1).last() == ds[k - start]);
            assert(digits_val(ds.subrange(0, k - start + 1)) == acc * 10 + d);
            assert(all_digits(ds.subrange(0, k - start + 1)));
        }
        if acc2 > 0x8000_0000 {
            proof {
                if all_digits(ds) {
                    lemma_digits_val_prefix(ds, k - start + 1);
                    assert(digits_val(ds) > 0x8000_0000);
                }
            }
            return None;
        }
        acc = acc2;
        k += 1;
    }
    proof {
        assert(ds.subrange(0, n - start) =~= ds);
    }
    if neg {
        Some((-acc) as i32)
    } else {
        if acc <= 0x7fff_ffff {
            Some(acc as i32)
        } else {
            None
        }
    }
}

} // verus!
