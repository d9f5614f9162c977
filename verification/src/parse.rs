//! The input parser: one line of player input, as bytes, into a move.
//!
//! A line holds whitespace-separated tokens. Two tokens `row col` mean
//! "probe"; three tokens `row col <anything>` mean "toggle flag" (only
//! the third token's presence matters). Anything else is a parse
//! failure. Row and column are signed decimal integers, 1-based.

use vstd::prelude::*;
use vstd::slice::slice_subrange;

verus! {

/// ASCII whitespace: space, tab, line feed, vertical tab, form feed,
/// carriage return.
pub open spec fn is_ws(b: u8) -> bool {
    b == 32 || (9 <= b <= 13)
}

/// The whitespace-separated tokens of the suffix of `s` that starts at
/// index `i`.
pub open spec fn tokens_from(s: Seq<u8>, i: int) -> Seq<Seq<u8>>
    decreases s.len() - i,
{
    if i < 0 || i >= s.len() {
        Seq::empty()
    } else if is_ws(s[i]) {
        tokens_from(s, i + 1)
    } else if i + 1 < s.len() && !is_ws(s[i + 1]) {
        seq![seq![s[i]] + tokens_from(s, i + 1)[0]] + tokens_from(s, i + 1).drop_first()
    } else {
        seq![seq![s[i]]] + tokens_from(s, i + 1)
    }
}

/// A decimal digit byte.
pub open spec fn is_digit(b: u8) -> bool {
    48 <= b <= 57
}

/// The number denoted by a sequence of digit bytes, most significant
/// first.
pub open spec fn dec_val(t: Seq<u8>) -> int
    decreases t.len(),
{
    if t.len() == 0 {
        0
    } else {
        dec_val(t.drop_last()) * 10 + (t.last() - 48)
    }
}

/// The digits of an integer token: everything after an optional leading
/// sign.
pub open spec fn digits_part(t: Seq<u8>) -> Seq<u8> {
    if t.len() > 0 && (t[0] == 43 || t[0] == 45) {
        t.drop_first()
    } else {
        t
    }
}

/// The token denotes a signed decimal integer: an optional `+` or `-`,
/// then one or more digits and nothing else.
pub open spec fn valid_int_token(t: Seq<u8>) -> bool {
    digits_part(t).len() > 0 && (forall|q: int|
        0 <= q < digits_part(t).len() ==> is_digit(#[trigger] digits_part(t)[q]))
}

/// The integer a valid token denotes.
pub open spec fn int_token_value(t: Seq<u8>) -> int {
    if t.len() > 0 && t[0] == 45 {
        -dec_val(digits_part(t))
    } else {
        dec_val(digits_part(t))
    }
}

/// What parsing a whole input line yields: the row, the column and the
/// flag marker of a valid line, or nothing. A line is valid when it has
/// exactly two or three tokens and the first two are integers that fit
/// in `isize`.
pub open spec fn parse_spec(s: Seq<u8>) -> Option<(int, int, bool)> {
    let toks = tokens_from(s, 0);
    if toks.len() != 2 && toks.len() != 3 {
        None
    } else if !valid_int_token(toks[0]) || !valid_int_token(toks[1]) {
        None
    } else if int_token_value(toks[0]) < isize::MIN || int_token_value(toks[0]) > isize::MAX
        || int_token_value(toks[1]) < isize::MIN || int_token_value(toks[1]) > isize::MAX {
        None
    } else {
        Some((int_token_value(toks[0]), int_token_value(toks[1]), toks.len() == 3))
    }
}

/// The token list denoted by a list of (start, end) boundary pairs.
pub open spec fn bounds_tokens(s: Seq<u8>, bs: Seq<(usize, usize)>) -> Seq<Seq<u8>> {
    Seq::new(bs.len(), |k: int| s.subrange(bs[k].0 as int, bs[k].1 as int))
}

/// A suffix that starts with a non-whitespace byte holds at least one
/// token.
proof fn lemma_tokens_from_nonempty(s: Seq<u8>, i: int)
    requires
        0 <= i < s.len(),
        !is_ws(s[i]),
    ensures
        tokens_from(s, i).len() > 0,
    decreases s.len() - i,
{
    if i + 1 < s.len() && !is_ws(s[i + 1]) {
        lemma_tokens_from_nonempty(s, i + 1);
    }
}

/// A maximal non-whitespace run is one token, followed by the tokens of
/// the rest.
proof fn lemma_token_split(s: Seq<u8>, i: int, k: int)
    requires
        0 <= i < k <= s.len(),
        forall|q: int| i <= q < k ==> !is_ws(#[trigger] s[q]),
        k == s.len() || is_ws(s[k]),
    ensures
        tokens_from(s, i) == seq![s.subrange(i, k)] + tokens_from(s, k),
    decreases k - i,
{
    if i + 1 == k {
        assert(s.subrange(i, k) =~= seq![s[i]]);
        assert(tokens_from(s, i) =~= seq![s.subrange(i, k)] + tokens_from(s, k));
    } else {
        assert(!is_ws(s[i + 1]));
        lemma_token_split(s, i + 1, k);
        lemma_tokens_from_nonempty(s, i + 1);
        assert(tokens_from(s, i + 1)[0] == s.subrange(i + 1, k));
        assert(seq![s[i]] + s.subrange(i + 1, k) =~= s.subrange(i, k));
        assert(tokens_from(s, i + 1).drop_first() =~= tokens_from(s, k));
        assert(tokens_from(s, i) =~= seq![s.subrange(i, k)] + tokens_from(s, k));
    }
}

/// Digit strings denote non-negative numbers.
proof fn lemma_dec_val_nonneg(s: Seq<u8>, start: int, mid: int)
    requires
        0 <= start <= mid <= s.len(),
        forall|q: int| start <= q < mid ==> is_digit(#[trigger] s[q]),
    ensures
        dec_val(s.subrange(start, mid)) >= 0,
    decreases mid - start,
{
    if mid > start {
        assert(s.subrange(start, mid).drop_last() =~= s.subrange(start, mid - 1));
        lemma_dec_val_nonneg(s, start, mid - 1);
    }
}

/// Extending a digit string to the right never shrinks its value.
proof fn lemma_dec_val_prefix_le(s: Seq<u8>, start: int, mid: int, end: int)
    requires
        0 <= start <= mid <= end <= s.len(),
        forall|q: int| start <= q < end ==> is_digit(#[trigger] s[q]),
    ensures
        dec_val(s.subrange(start, mid)) <= dec_val(s.subrange(start, end)),
    decreases end - mid,
{
    if mid < end {
        assert(s.subrange(start, mid + 1).drop_last() =~= s.subrange(start, mid));
        lemma_dec_val_nonneg(s, start, mid);
        lemma_dec_val_prefix_le(s, start, mid + 1, end);
    }
}

/// Is this byte ASCII whitespace?
fn is_ws_byte(b: u8) -> (r: bool)
    ensures
        r == is_ws(b),
{
    b == 32 || (9 <= b && b <= 13)
}

/// Find the (start, end) boundaries of every whitespace-separated token.
fn token_bounds(input: &[u8]) -> (toks: Vec<(usize, usize)>)
    ensures
        bounds_tokens(input@, toks@) == tokens_from(input@, 0),
        forall|k: int|
            0 <= k < toks@.len() ==> 0 <= (#[trigger] toks@[k]).0 < toks@[k].1 <= input@.len(),
{
    let s = input;
    let n = s.len();
    let mut toks: Vec<(usize, usize)> = Vec::new();
    let mut i: usize = 0;
    while i < n
        invariant
            i <= n,
            n == s@.len(),
            tokens_from(s@, 0) == bounds_tokens(s@, toks@) + tokens_from(s@, i as int),
            forall|k: int|
                0 <= k < toks@.len() ==> 0 <= (#[trigger] toks@[k]).0 < toks@[k].1 <= n,
        decreases n - i,
    {
        if is_ws_byte(s[i]) {
            proof {
                assert(tokens_from(s@, i as int) == tokens_from(s@, i as int + 1));
            }
            i += 1;
        } else {
            let start = i;
            let mut k = i + 1;
            while k < n && !is_ws_byte(s[k])
                invariant
                    start < k <= n,
                    n == s@.len(),
                    forall|q: int| start <= q < k ==> !is_ws(#[trigger] s@[q]),
                decreases n - k,
            {
                k += 1;
            }
            let ghost old_toks = toks@;
            toks.push((start, k));
            proof {
                lemma_token_split(s@, start as int, k as int);
                assert(bounds_tokens(s@, toks@) =~= bounds_tokens(s@, old_toks).push(
                    s@.subrange(start as int, k as int),
                ));
                assert(tokens_from(s@, 0) =~= bounds_tokens(s@, toks@) + tokens_from(
                    s@,
                    k as int,
                ));
            }
            i = k;
        }
    }
    proof {
        assert(tokens_from(s@, i as int) =~= Seq::empty());
        assert(bounds_tokens(s@, toks@) + tokens_from(s@, i as int) =~= bounds_tokens(s@, toks@));
    }
    toks
}

/// Parse one token as a signed decimal integer that fits in `isize`.
fn parse_isize(t: &[u8]) -> (res: Result<isize, ()>)
    ensures
        (res is Ok) <==> (valid_int_token(t@) && isize::MIN <= int_token_value(t@)
            <= isize::MAX),
        res matches Ok(v) ==> v as int == int_token_value(t@),
{
    let n = t.len();
    if n == 0 {
        return Err(());
    }
    let first = t[0];
    let neg = first == 45;
    let start: usize = if first == 43 || first == 45 {
        1
    } else {
        0
    };
    proof {
        assert(digits_part(t@) =~= t@.subrange(start as int, n as int));
    }
    if start == n {
        return Err(());
    }
    let limit: i128 = (isize::MAX as i128) + 1;
    let mut acc: i128 = 0;
    let mut j = start;
    while j < n
        invariant
            start <= j <= n,
            n == t@.len(),
            start < n,
            0 < limit,
            limit == (isize::MAX as i128) + 1,
            forall|q: int| start <= q < j ==> is_digit(#[trigger] t@[q]),
            acc as int == dec_val(t@.subrange(start as int, j as int)),
            0 <= acc <= limit,
            digits_part(t@) == t@.subrange(start as int, n as int),
            neg == (t@[0] == 45),
        decreases n - j,
    {
        let ch = t[j];
        if !(48 <= ch && ch <= 57) {
            proof {
                if valid_int_token(t@) {
                    assert(is_digit(digits_part(t@)[j - start]));
                }
            }
            return Err(());
        }
        proof {
            assert(t@.subrange(start as int, j as int + 1).drop_last() =~= t@.subrange(
                start as int,
                j as int,
            ));
        }
        acc = acc * 10 + ((ch - 48) as i128);
        j += 1;
        if acc > limit {
            proof {
                if valid_int_token(t@) {
                    assert forall|q: int| start <= q < n implies is_digit(#[trigger] t@[q]) by {
                        assert(is_digit(digits_part(t@)[q - start]));
                    }
                    lemma_dec_val_prefix_le(t@, start as int, j as int, n as int);
                }
            }
            return Err(());
        }
    }
    proof {
        assert(acc as int == dec_val(digits_part(t@)));
        assert(valid_int_token(t@));
    }
    if neg {
        Ok((-acc) as isize)
    } else {
        if acc == limit {
            return Err(());
        }
        Ok(acc as isize)
    }
}

/// Parse one line of player input. `Ok((row, col, flag))` means the line
/// had two or three tokens whose first two are in-range integers; `flag`
/// says whether a third token was present. Every other line is `Err`.
pub fn parse_input(input: &[u8]) -> (res: Result<(isize, isize, bool), ()>)
    ensures
        match res {
            Ok(t) => parse_spec(input@) == Some((t.0 as int, t.1 as int, t.2)),
            Err(()) => parse_spec(input@) is None,
        },
{
    let toks = token_bounds(input);
    if !(toks.len() == 2 || toks.len() == 3) {
        return Err(());
    }
    let b0 = toks[0];
    let b1 = toks[1];
    proof {
        assert(tokens_from(input@, 0)[0] == bounds_tokens(input@, toks@)[0]);
        assert(tokens_from(input@, 0)[1] == bounds_tokens(input@, toks@)[1]);
    }
    let t0 = slice_subrange(input, b0.0, b0.1);
    let t1 = slice_subrange(input, b1.0, b1.1);
    let row = match parse_isize(t0) {
        Ok(v) => v,
        Err(()) => {
            return Err(());
        },
    };
    let col = match parse_isize(t1) {
        Ok(v) => v,
        Err(()) => {
            return Err(());
        },
    };
    Ok((row, col, toks.len() == 3))
}

} // verus!
