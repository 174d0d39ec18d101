//! The value-comparison policy: two column values compare numerically
//! when both parse as 32-bit signed integers, and as plain text
//! (code-point order) otherwise.

use vstd::prelude::*;

verus! {

/// Outcome of comparing two column values.
#[derive(Clone, Copy, PartialEq, Eq, Structural, Debug)]
pub enum ValOrder {
    Less,
    Equal,
    Greater,
}

pub open spec fn is_digit(c: char) -> bool {
    '0' as int <= c as int <= '9' as int
}

pub open spec fn digit_val(c: char) -> int {
    c as int - '0' as int
}

pub open spec fn all_digits(s: Seq<char>) -> bool {
    forall|i: int| 0 <= i < s.len() ==> is_digit(#[trigger] s[i])
}

/// Numeric value of a sequence of decimal digits, most significant first.
pub open spec fn digits_val(s: Seq<char>) -> int
    decreases s.len(),
{
    if s.len() == 0 {
        0
    } else {
        digits_val(s.drop_last()) * 10 + digit_val(s.last())
    }
}

/// The integer a string denotes: an optional sign, then one or more
/// decimal digits and nothing else; `None` when the string has any
/// other shape.
pub open spec fn spec_parse_int(s: Seq<char>) -> Option<int> {
    let body = if s.len() > 0 && (s[0] == '+' || s[0] == '-') {
        s.skip(1)
    } else {
        s
    };
    if body.len() > 0 && all_digits(body) {
        if s[0] == '-' {
            Some(-digits_val(body))
        } else {
            Some(digits_val(body))
        }
    } else {
        None
    }
}

/// Like `spec_parse_int`, but failing on values outside the 32-bit
/// signed range, as the runtime parser does.
pub open spec fn spec_parse_i32(s: Seq<char>) -> Option<int> {
    match spec_parse_int(s) {
        Some(v) => if -0x8000_0000 <= v <= 0x7fff_ffff {
            Some(v)
        } else {
            None
        },
        None => None,
    }
}

/// Plain-text comparison: code-point order, shorter prefix first.
pub open spec fn lex_cmp(a: Seq<char>, b: Seq<char>) -> ValOrder
    decreases a.len(),
{
    if a.len() == 0 && b.len() == 0 {
        ValOrder::Equal
    } else if a.len() == 0 {
        ValOrder::Less
    } else if b.len() == 0 {
        ValOrder::Greater
    } else if a[0] != b[0] {
        if (a[0] as int) < (b[0] as int) {
            ValOrder::Less
        } else {
            ValOrder::Greater
        }
    } else {
        lex_cmp(a.skip(1), b.skip(1))
    }
}

pub open spec fn int_cmp(a: int, b: int) -> ValOrder {
    if a < b {
        ValOrder::Less
    } else if a == b {
        ValOrder::Equal
    } else {
        ValOrder::Greater
    }
}

/// The engine's comparison policy over two textual values.
pub open spec fn val_cmp(a: Seq<char>, b: Seq<char>) -> ValOrder {
    match (spec_parse_i32(a), spec_parse_i32(b)) {
        (Some(x), Some(y)) => int_cmp(x, y),
        _ => lex_cmp(a, b),
    }
}

/// Exchanging the operands of `lex_cmp` reverses its answer.
pub proof fn lemma_lex_cmp_antisym(a: Seq<char>, b: Seq<char>)
    ensures
        lex_cmp(a, b) == ValOrder::Less <==> lex_cmp(b, a) == ValOrder::Greater,
        lex_cmp(a, b) == ValOrder::Equal <==> lex_cmp(b, a) == ValOrder::Equal,
    decreases a.len(),
{
    if a.len() > 0 && b.len() > 0 && a[0] == b[0] {
        lemma_lex_cmp_antisym(a.skip(1), b.skip(1));
    }
}

/// Exchanging the operands of `val_cmp` reverses its answer.
pub proof fn lemma_val_cmp_antisym(a: Seq<char>, b: Seq<char>)
    ensures
        val_cmp(a, b) == ValOrder::Less <==> val_cmp(b, a) == ValOrder::Greater,
        val_cmp(a, b) == ValOrder::Equal <==> val_cmp(b, a) == ValOrder::Equal,
{
    lemma_lex_cmp_antisym(a, b);
}

pub proof fn lemma_digits_val_nonneg(s: Seq<char>)
    requires
        all_digits(s),
    ensures
        digits_val(s) >= 0,
    decreases s.len(),
{
    if s.len() > 0 {
        assert(all_digits(s.drop_last()));
        lemma_digits_val_nonneg(s.drop_last());
        assert(digits_val(s.drop_last()) * 10 >= 0) by (nonlinear_arith)
            requires digits_val(s.drop_last()) >= 0;
    }
}

/// A digit string is worth at least any of its prefixes.
pub proof fn lemma_digits_val_prefix(s: Seq<char>, i: int)
    requires
        all_digits(s),
        0 <= i <= s.len(),
    ensures
        digits_val(s.subrange(0, i)) <= digits_val(s),
    decreases s.len() - i,
{
    if i < s.len() {
        lemma_digits_val_prefix(s, i + 1);
        let p = s.subrange(0, i);
        let q = s.subrange(0, i + 1);
        assert(q.drop_last() =~= p);
        assert(all_digits(p));
        lemma_digits_val_nonneg(p);
        assert(digits_val(p) * 10 >= digits_val(p)) by (nonlinear_arith)
            requires digits_val(p) >= 0;
        assert(digits_val(q) >= digits_val(p));
    } else {
        assert(s.subrange(0, i) =~= s);
    }
}

/// Parses a 32-bit signed integer, widened to 64 bits; `None` exactly
/// when the text is not an optionally signed digit string in range.
pub fn parse_i32(s: &str) -> (r: Option<i64>)
    ensures
        match r {
            Some(v) => spec_parse_i32(s@) == Some(v as int),
            None => spec_parse_i32(s@) is None,
        },
{
    let n = s.unicode_len();
    if n == 0 {
        return None;
    }
    let c0 = s.get_char(0);
    let neg = c0 == '-';
    let start: usize = if c0 == '-' || c0 == '+' {
        1
    } else {
        0
    };
    if start >= n {
        return None;
    }
    let ghost body = s@.skip(start as int);
    proof {
        assert(s@.skip(0) =~= s@);
    }
    let bound: i64 = if neg {
        0x8000_0000
    } else {
        0x7fff_ffff
    };
    let mut acc: i64 = 0;
    let mut i: usize = start;
    while i < n
        invariant
            start <= i <= n,
            n == s@.len(),
            body == s@.skip(start as int),
            start == 0 || start == 1,
            start == 1 ==> (s@[0] == '+' || s@[0] == '-'),
            start == 0 ==> !(s@[0] == '+' || s@[0] == '-'),
            neg <==> (n > 0 && s@[0] == '-'),
            start < n,
            bound == if neg { 0x8000_0000i64 } else { 0x7fff_ffffi64 },
            all_digits(s@.subrange(start as int, i as int)),
            acc == digits_val(s@.subrange(start as int, i as int)),
            0 <= acc <= bound,
        decreases n - i,
    {
        let c = s.get_char(i);
        if !('0' <= c && c <= '9') {
            assert(!is_digit(body[i - start]));
            return None;
        }
        let d: i64 = (c as u32 - '0' as u32) as i64;
        let ghost pre = s@.subrange(start as int, i as int);
        let ghost cur = s@.subrange(start as int, i + 1 as int);
        proof {
            assert(cur.drop_last() =~= pre);
            assert(cur.last() == s@[i as int]);
        }
        acc = acc * 10 + d;
        i = i + 1;
        if acc > bound {
            proof {
                assert(s@.skip(0) =~= s@);
                assert(is_digit(cur.last()));
                assert(acc == digits_val(cur));
                assert(all_digits(cur));
                let k = i as int - start as int;
                assert(cur =~= body.subrange(0, k));
                if all_digits(body) {
                    assert(body.subrange(0, k).len() == k);
                    lemma_digits_val_prefix(body, k);
                    assert(digits_val(body) >= acc);
                }
            }
            return None;
        }
    }
    proof {
        assert(s@.subrange(start as int, n as int) =~= body);
        assert(body.len() > 0);
    }
    if neg {
        Some(-acc)
    } else {
        Some(acc)
    }
}

/// Plain-text comparison of two strings in code-point order.
pub fn lex_compare(a: &str, b: &str) -> (r: ValOrder)
    ensures
        r == lex_cmp(a@, b@),
{
    let na = a.unicode_len();
    let nb = b.unicode_len();
    proof {
        assert(a@.skip(0) =~= a@);
        assert(b@.skip(0) =~= b@);
    }
    let mut i: usize = 0;
    while i < na && i < nb
        invariant
            0 <= i <= na,
            0 <= i <= nb,
            na == a@.len(),
            nb == b@.len(),
            lex_cmp(a@, b@) == lex_cmp(a@.skip(i as int), b@.skip(i as int)),
        decreases na - i,
    {
        let ca = a.get_char(i);
        let cb = b.get_char(i);
        let ghost sa = a@.skip(i as int);
        let ghost sb = b@.skip(i as int);
        if ca as u32 != cb as u32 {
            assert(sa[0] != sb[0]);
            if (ca as u32) < (cb as u32) {
                return ValOrder::Less;
            } else {
                return ValOrder::Greater;
            }
        }
        proof {
            assert(sa[0] == sb[0]);
            assert(sa.skip(1) =~= a@.skip(i + 1));
            assert(sb.skip(1) =~= b@.skip(i + 1));
        }
        i = i + 1;
    }
    proof {
        assert(a@.skip(i as int).len() == na - i);
        assert(b@.skip(i as int).len() == nb - i);
    }
    if na == nb {
        ValOrder::Equal
    } else if na < nb {
        assert(i == na);
        ValOrder::Less
    } else {
        ValOrder::Greater
    }
}

/// Compares two column values under the engine's policy: numerically
/// when both are in-range integers, as text otherwise.
pub fn compare_values(a: &str, b: &str) -> (r: ValOrder)
    ensures
        r == val_cmp(a@, b@),
{
    let pa = parse_i32(a);
    let pb = parse_i32(b);
    match (pa, pb) {
        (Some(x), Some(y)) => {
            if x < y {
                ValOrder::Less
            } else if x == y {
                ValOrder::Equal
            } else {
                ValOrder::Greater
            }
        },
        _ => lex_compare(a, b),
    }
}

} // verus!
