//! Low-level character scanning over query text: delimiter classes,
//! first-occurrence searches, trimming, and their executable forms.

use vstd::prelude::*;

verus! {

/// The characters that end a bare token: space, comma, parentheses and
/// the statement terminator.
pub open spec fn is_delim(c: char) -> bool {
    c == ' ' || c == ',' || c == '(' || c == ')' || c == ';'
}

/// Index of the first non-space character at or after `i`; the length
/// of `s` when only spaces remain.
pub open spec fn first_non_space_from(s: Seq<char>, i: int) -> int
    decreases s.len() - i,
{
    if 0 <= i < s.len() && s[i] == ' ' {
        first_non_space_from(s, i + 1)
    } else {
        i
    }
}

pub proof fn lemma_first_non_space_from(s: Seq<char>, i: int)
    requires
        0 <= i <= s.len(),
    ensures
        i <= first_non_space_from(s, i) <= s.len(),
        first_non_space_from(s, i) < s.len() ==> s[first_non_space_from(s, i)] != ' ',
        forall|j: int| i <= j < first_non_space_from(s, i) ==> s[j] == ' ',
    decreases s.len() - i,
{
    if 0 <= i < s.len() && s[i] == ' ' {
        lemma_first_non_space_from(s, i + 1);
    }
}

/// Index of the first occurrence of `c` at or after `i`.
pub open spec fn find_char_from(s: Seq<char>, c: char, i: int) -> Option<int>
    decreases s.len() - i,
{
    if !(0 <= i < s.len()) {
        None
    } else if s[i] == c {
        Some(i)
    } else {
        find_char_from(s, c, i + 1)
    }
}

pub proof fn lemma_find_char_from(s: Seq<char>, c: char, i: int)
    requires
        0 <= i,
    ensures
        match find_char_from(s, c, i) {
            Some(p) => i <= p < s.len() && s[p] == c && forall|j: int| i <= j < p ==> s[j] != c,
            None => forall|j: int| i <= j < s.len() ==> s[j] != c,
        },
    decreases s.len() - i,
{
    if 0 <= i < s.len() && s[i] != c {
        lemma_find_char_from(s, c, i + 1);
    }
}

/// Index of the first delimiter at or after `i`.
pub open spec fn find_delim_from(s: Seq<char>, i: int) -> Option<int>
    decreases s.len() - i,
{
    if !(0 <= i < s.len()) {
        None
    } else if is_delim(s[i]) {
        Some(i)
    } else {
        find_delim_from(s, i + 1)
    }
}

pub proof fn lemma_find_delim_from(s: Seq<char>, i: int)
    requires
        0 <= i,
    ensures
        match find_delim_from(s, i) {
            Some(p) => i <= p < s.len() && is_delim(s[p]) && forall|j: int|
                i <= j < p ==> !is_delim(s[j]),
            None => forall|j: int| i <= j < s.len() ==> !is_delim(s[j]),
        },
    decreases s.len() - i,
{
    if 0 <= i < s.len() && !is_delim(s[i]) {
        lemma_find_delim_from(s, i + 1);
    }
}

/// First delimiter position at or after `i`, or the length of `s`.
pub open spec fn first_delim_or_len(s: Seq<char>, i: int) -> int {
    match find_delim_from(s, i) {
        Some(p) => p,
        None => s.len() as int,
    }
}

/// The characters that form comparison operators; they break a bare
/// token just as delimiters do.
pub open spec fn is_op_char(c: char) -> bool {
    c == '=' || c == '!' || c == '<' || c == '>'
}

/// Index of the first delimiter or operator character at or after
/// `i`.
pub open spec fn find_break_from(s: Seq<char>, i: int) -> Option<int>
    decreases s.len() - i,
{
    if !(0 <= i < s.len()) {
        None
    } else if is_delim(s[i]) || is_op_char(s[i]) {
        Some(i)
    } else {
        find_break_from(s, i + 1)
    }
}

pub proof fn lemma_find_break_from(s: Seq<char>, i: int)
    requires
        0 <= i,
    ensures
        match find_break_from(s, i) {
            Some(p) => i <= p < s.len() && (is_delim(s[p]) || is_op_char(s[p])) && forall|j: int|
                i <= j < p ==> !is_delim(s[j]) && !is_op_char(s[j]),
            None => forall|j: int| i <= j < s.len() ==> !is_delim(s[j]) && !is_op_char(s[j]),
        },
    decreases s.len() - i,
{
    if 0 <= i < s.len() && !is_delim(s[i]) && !is_op_char(s[i]) {
        lemma_find_break_from(s, i + 1);
    }
}

/// Index of the first non-operator character at or after `i`; the
/// length of `s` when operator characters run to the end.
pub open spec fn first_non_op_from(s: Seq<char>, i: int) -> int
    decreases s.len() - i,
{
    if 0 <= i < s.len() && is_op_char(s[i]) {
        first_non_op_from(s, i + 1)
    } else {
        i
    }
}

pub proof fn lemma_first_non_op_from(s: Seq<char>, i: int)
    requires
        0 <= i <= s.len(),
    ensures
        i <= first_non_op_from(s, i) <= s.len(),
    decreases s.len() - i,
{
    if 0 <= i < s.len() && is_op_char(s[i]) {
        lemma_first_non_op_from(s, i + 1);
    }
}

/// Whether `c` is a delimiter or an operator character.
pub fn break_char(c: char) -> (r: bool)
    ensures
        r == (is_delim(c) || is_op_char(c)),
{
    c == ' ' || c == ',' || c == '(' || c == ')' || c == ';' || c == '=' || c == '!' || c == '<'
        || c == '>'
}

/// Finds the first delimiter or operator character at or after
/// `from`, or the length of `s`.
pub fn scan_break(s: &str, from: usize) -> (r: usize)
    requires
        from <= s@.len(),
    ensures
        from <= r <= s@.len(),
        match find_break_from(s@, from as int) {
            Some(p) => r == p,
            None => r == s@.len(),
        },
{
    let n = s.unicode_len();
    let mut i = from;
    while i < n
        invariant
            from <= i <= n,
            n == s@.len(),
            find_break_from(s@, from as int) == find_break_from(s@, i as int),
        decreases n - i,
    {
        if break_char(s.get_char(i)) {
            return i;
        }
        i = i + 1;
    }
    i
}

/// Scans past operator characters, starting at `from`.
pub fn scan_non_op(s: &str, from: usize) -> (r: usize)
    requires
        from <= s@.len(),
    ensures
        r == first_non_op_from(s@, from as int),
        from <= r <= s@.len(),
{
    let n = s.unicode_len();
    let mut i = from;
    while i < n
        invariant
            from <= i <= n,
            n == s@.len(),
            first_non_op_from(s@, from as int) == first_non_op_from(s@, i as int),
        decreases n - i,
    {
        let c = s.get_char(i);
        if !(c == '=' || c == '!' || c == '<' || c == '>') {
            return i;
        }
        i = i + 1;
    }
    i
}

/// Index of the first occurrence of `pat` as a contiguous substring at
/// or after `i`.
pub open spec fn find_sub_from(s: Seq<char>, pat: Seq<char>, i: int) -> Option<int>
    decreases s.len() - i + 1,
{
    if !(0 <= i && i + pat.len() <= s.len()) {
        None
    } else if s.subrange(i, i + pat.len()) == pat {
        Some(i)
    } else {
        find_sub_from(s, pat, i + 1)
    }
}

pub proof fn lemma_find_sub_from(s: Seq<char>, pat: Seq<char>, i: int)
    requires
        0 <= i,
    ensures
        match find_sub_from(s, pat, i) {
            Some(p) => i <= p && p + pat.len() <= s.len() && s.subrange(p, p + pat.len()) == pat,
            None => true,
        },
    decreases s.len() - i + 1,
{
    if 0 <= i && i + pat.len() <= s.len() && s.subrange(i, i + pat.len()) != pat {
        lemma_find_sub_from(s, pat, i + 1);
    }
}

/// One-past-the-end index of the last non-space character before `i`;
/// zero when only spaces precede.
pub open spec fn last_non_space_to(s: Seq<char>, i: int) -> int
    decreases i,
{
    if 0 < i <= s.len() && s[i - 1] == ' ' {
        last_non_space_to(s, i - 1)
    } else {
        i
    }
}

pub proof fn lemma_last_non_space_to(s: Seq<char>, i: int)
    requires
        0 <= i <= s.len(),
    ensures
        0 <= last_non_space_to(s, i) <= i,
        last_non_space_to(s, i) > 0 ==> s[last_non_space_to(s, i) - 1] != ' ',
        forall|j: int| last_non_space_to(s, i) <= j < i ==> s[j] == ' ',
    decreases i,
{
    if 0 < i <= s.len() && s[i - 1] == ' ' {
        lemma_last_non_space_to(s, i - 1);
    }
}

/// `s` with leading and trailing spaces removed.
pub open spec fn trim_spaces(s: Seq<char>) -> Seq<char> {
    let a = first_non_space_from(s, 0);
    let b = last_non_space_to(s, s.len() as int);
    if a <= b {
        s.subrange(a, b)
    } else {
        Seq::empty()
    }
}

/// Character-by-character string equality, meaning equality of the
/// views.
pub fn str_eq(a: &str, b: &str) -> (r: bool)
    ensures
        r == (a@ == b@),
{
    let na = a.unicode_len();
    let nb = b.unicode_len();
    if na != nb {
        return false;
    }
    let mut i: usize = 0;
    while i < na
        invariant
            0 <= i <= na,
            na == a@.len(),
            na == b@.len(),
            forall|j: int| 0 <= j < i ==> a@[j] == b@[j],
        decreases na - i,
    {
        if a.get_char(i) != b.get_char(i) {
            return false;
        }
        i = i + 1;
    }
    proof {
        assert(a@ =~= b@);
    }
    true
}

/// Scans past spaces, starting at `from`.
pub fn scan_non_space(s: &str, from: usize) -> (r: usize)
    requires
        from <= s@.len(),
    ensures
        r == first_non_space_from(s@, from as int),
        from <= r <= s@.len(),
    {
    let n = s.unicode_len();
    let mut i = from;
    while i < n
        invariant
            from <= i <= n,
            n == s@.len(),
            first_non_space_from(s@, from as int) == first_non_space_from(s@, i as int),
        decreases n - i,
    {
        if s.get_char(i) != ' ' {
            return i;
        }
        i = i + 1;
    }
    i
}

/// Finds the first occurrence of `c` at or after `from`.
pub fn scan_char(s: &str, c: char, from: usize) -> (r: Option<usize>)
    requires
        from <= s@.len(),
    ensures
        match r {
            Some(p) => find_char_from(s@, c, from as int) == Some(p as int) && from <= p
                < s@.len(),
            None => find_char_from(s@, c, from as int) is None,
        },
{
    let n = s.unicode_len();
    let mut i = from;
    while i < n
        invariant
            from <= i <= n,
            n == s@.len(),
            find_char_from(s@, c, from as int) == find_char_from(s@, c, i as int),
        decreases n - i,
    {
        if s.get_char(i) == c {
            return Some(i);
        }
        i = i + 1;
    }
    None
}

/// Whether `c` ends a bare token.
pub fn delim_char(c: char) -> (r: bool)
    ensures
        r == is_delim(c),
{
    c == ' ' || c == ',' || c == '(' || c == ')' || c == ';'
}

/// Finds the first delimiter at or after `from`, or the length of `s`.
pub fn scan_delim(s: &str, from: usize) -> (r: usize)
    requires
        from <= s@.len(),
    ensures
        r == first_delim_or_len(s@, from as int),
        from <= r <= s@.len(),
        match find_delim_from(s@, from as int) {
            Some(p) => r == p,
            None => r == s@.len(),
        },
{
    let n = s.unicode_len();
    let mut i = from;
    while i < n
        invariant
            from <= i <= n,
            n == s@.len(),
            find_delim_from(s@, from as int) == find_delim_from(s@, i as int),
        decreases n - i,
    {
        if delim_char(s.get_char(i)) {
            return i;
        }
        i = i + 1;
    }
    i
}

/// Finds the first occurrence of `pat` as a substring of `s` at or
/// after `from`.
pub fn scan_sub(s: &str, pat: &str, from: usize) -> (r: Option<usize>)
    requires
        from <= s@.len(),
    ensures
        match r {
            Some(p) => find_sub_from(s@, pat@, from as int) == Some(p as int) && from <= p
                && p + pat@.len() <= s@.len(),
            None => find_sub_from(s@, pat@, from as int) is None,
        },
{
    let n = s.unicode_len();
    let m = pat.unicode_len();
    if m == 0 {
        proof {
            assert(s@.subrange(from as int, from as int) =~= pat@);
        }
        return Some(from);
    }
    if m > n || from > n - m {
        return None;
    }
    let mut i = from;
    while i <= n - m
        invariant
            from <= i,
            1 <= m <= n,
            i <= n - m + 1,
            n == s@.len(),
            m == pat@.len(),
            find_sub_from(s@, pat@, from as int) == find_sub_from(s@, pat@, i as int),
        decreases n - i,
    {
        let cand = s.substring_char(i, i + m);
        if str_eq(cand, pat) {
            return Some(i);
        }
        proof {
            assert(s@.subrange(i as int, i + m) != pat@);
        }
        i = i + 1;
    }
    None
}

/// Copies the character range `[from, to)` of `s` into a fresh string.
pub fn substr(s: &str, from: usize, to: usize) -> (r: String)
    requires
        from <= to <= s@.len(),
    ensures
        r@ == s@.subrange(from as int, to as int),
{
    s.substring_char(from, to).to_owned()
}

/// `s` with leading and trailing spaces removed.
pub fn trim_str(s: &str) -> (r: String)
    ensures
        r@ == trim_spaces(s@),
{
    let n = s.unicode_len();
    let a = scan_non_space(s, 0);
    let mut b = n;
    while b > 0 && s.get_char(b - 1) == ' '
        invariant
            0 <= b <= n,
            n == s@.len(),
            last_non_space_to(s@, n as int) == last_non_space_to(s@, b as int),
        decreases b,
    {
        b = b - 1;
    }
    proof {
        lemma_first_non_space_from(s@, 0);
        lemma_last_non_space_to(s@, n as int);
        assert(last_non_space_to(s@, b as int) == b);
    }
    if a <= b {
        substr(s, a, b)
    } else {
        let empty: String = String::new();
        proof {
            assert(empty@ =~= Seq::<char>::empty());
        }
        empty
    }
}

} // verus!
