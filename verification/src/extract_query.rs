//! The lexical cursor over query text and the clause extractors built
//! on it: tokens, table-name lists, parenthesized value lists, SET
//! assignment lists, `WHERE` conditions and `ORDER BY` keys.

use vstd::prelude::*;

use crate::condition::{ComparisonOp, Condition, ConditionView};
use crate::errors::ErrorType;
use crate::order::{Direction, OrderBy, OrderByView};
use crate::scan::{
    find_break_from, find_char_from, find_delim_from, find_sub_from, first_delim_or_len,
    first_non_op_from, first_non_space_from, is_delim, is_op_char, lemma_find_break_from,
    lemma_find_char_from, lemma_find_sub_from, lemma_first_non_op_from,
    lemma_first_non_space_from, scan_break, scan_char, scan_delim, scan_non_op, scan_non_space,
    scan_sub, str_eq, substr, trim_spaces, trim_str,
};
use crate::value_map::ValueMap;

verus! {

/// The next token of `s` and the text that remains after it: spaces
/// are skipped; a single-quoted token is taken verbatim up to its
/// closing quote, quotes stripped (`None` if the quote never closes);
/// the terminator and each parenthesis is a one-character token; a
/// run of operator characters is one token; any other token runs to
/// the first delimiter or operator character, and a trailing space,
/// comma or terminator is consumed with it while a parenthesis or
/// operator is left for the next read.
pub open spec fn spec_next_word(s: Seq<char>) -> Option<(Seq<char>, Seq<char>)> {
    let i = first_non_space_from(s, 0);
    if i >= s.len() {
        None
    } else if s[i] == '\'' {
        match find_char_from(s, '\'', i + 1) {
            Some(p) => Some((s.subrange(i + 1, p), s.skip(p + 1))),
            None => None,
        }
    } else if s[i] == ';' {
        Some((";"@, s.skip(i + 1)))
    } else if s[i] == '(' {
        Some(("("@, s.skip(i + 1)))
    } else if s[i] == ')' {
        Some((")"@, s.skip(i + 1)))
    } else if is_op_char(s[i]) {
        Some((s.subrange(i, first_non_op_from(s, i)), s.skip(first_non_op_from(s, i))))
    } else {
        match find_break_from(s, i) {
            Some(p) => if s[p] == ' ' || s[p] == ',' || s[p] == ';' {
                Some((s.subrange(i, p), s.skip(p + 1)))
            } else {
                Some((s.subrange(i, p), s.skip(p)))
            },
            None => Some((s.subrange(i, s.len() as int), Seq::empty())),
        }
    }
}

/// Extracting a token always consumes at least one character.
pub proof fn lemma_next_word_progress(s: Seq<char>)
    ensures
        spec_next_word(s) matches Some(p) ==> p.1.len() < s.len(),
{
    lemma_first_non_space_from(s, 0);
    let i = first_non_space_from(s, 0);
    if i < s.len() {
        if s[i] == '\'' {
            lemma_find_char_from(s, '\'', i + 1);
        } else if s[i] == ';' || s[i] == '(' || s[i] == ')' {
        } else if is_op_char(s[i]) {
            lemma_first_non_op_from(s, i + 1);
            assert(first_non_op_from(s, i) == first_non_op_from(s, i + 1));
        } else {
            lemma_find_break_from(s, i);
        }
    }
}

/// Advances the cursor past the next token and returns it; `None` at
/// end of input or on an unclosed quote, leaving the text unchanged.
pub fn extract_next_word(s: &mut String) -> (r: Option<String>)
    ensures
        match r {
            Some(t) => spec_next_word(old(s)@) == Some((t@, final(s)@)),
            None => spec_next_word(old(s)@) is None && final(s)@ == old(s)@,
        },
{
    let ghost s0 = s@;
    let n = s.as_str().unicode_len();
    let i = scan_non_space(s.as_str(), 0);
    if i >= n {
        return None;
    }
    let c0 = s.as_str().get_char(i);
    if c0 == '\'' {
        match scan_char(s.as_str(), '\'', i + 1) {
            Some(p) => {
                let w = substr(s.as_str(), i + 1, p);
                let rest = substr(s.as_str(), p + 1, n);
                proof {
                    assert(s0.subrange(p + 1, n as int) =~= s0.skip(p + 1));
                }
                *s = rest;
                Some(w)
            },
            None => None,
        }
    } else if c0 == ';' || c0 == '(' || c0 == ')' {
        let rest = substr(s.as_str(), i + 1, n);
        proof {
            assert(s0.subrange(i + 1, n as int) =~= s0.skip(i + 1));
        }
        *s = rest;
        let w = if c0 == ';' {
            String::from_str(";")
        } else if c0 == '(' {
            String::from_str("(")
        } else {
            String::from_str(")")
        };
        Some(w)
    } else if c0 == '=' || c0 == '!' || c0 == '<' || c0 == '>' {
        let q = scan_non_op(s.as_str(), i);
        let w = substr(s.as_str(), i, q);
        let rest = substr(s.as_str(), q, n);
        proof {
            assert(s0.subrange(q as int, n as int) =~= s0.skip(q as int));
        }
        *s = rest;
        Some(w)
    } else {
        let p = scan_break(s.as_str(), i);
        if p < n {
            let cp = s.as_str().get_char(p);
            let w = substr(s.as_str(), i, p);
            if cp == ' ' || cp == ',' || cp == ';' {
                let rest = substr(s.as_str(), p + 1, n);
                proof {
                    assert(s0.subrange(p + 1, n as int) =~= s0.skip(p + 1));
                }
                *s = rest;
                Some(w)
            } else {
                let rest = substr(s.as_str(), p, n);
                proof {
                    assert(s0.subrange(p as int, n as int) =~= s0.skip(p as int));
                }
                *s = rest;
                Some(w)
            }
        } else {
            let w = substr(s.as_str(), i, n);
            let rest = String::new();
            proof {
                lemma_find_break_from(s0, i as int);
                assert(rest@ =~= Seq::<char>::empty());
            }
            *s = rest;
            Some(w)
        }
    }
}

/// Reads the next token without consuming anything.
pub fn peek_next_word(s: &String) -> (r: Option<String>)
    ensures
        match r {
            Some(t) => spec_next_word(s@) matches Some(p) && p.0 == t@,
            None => spec_next_word(s@) is None,
        },
{
    let n = s.as_str().unicode_len();
    let i = scan_non_space(s.as_str(), 0);
    if i >= n {
        return None;
    }
    let c0 = s.as_str().get_char(i);
    if c0 == '\'' {
        match scan_char(s.as_str(), '\'', i + 1) {
            Some(p) => Some(substr(s.as_str(), i + 1, p)),
            None => None,
        }
    } else if c0 == ';' {
        Some(String::from_str(";"))
    } else if c0 == '(' {
        Some(String::from_str("("))
    } else if c0 == ')' {
        Some(String::from_str(")"))
    } else if c0 == '=' || c0 == '!' || c0 == '<' || c0 == '>' {
        let q = scan_non_op(s.as_str(), i);
        Some(substr(s.as_str(), i, q))
    } else {
        let p = scan_break(s.as_str(), i);
        Some(substr(s.as_str(), i, p))
    }
}

/// The next non-space character, not consumed; `None` when only
/// spaces remain.
pub fn get_next_char(s: &str) -> (r: Option<char>)
    ensures
        ({
            let i = first_non_space_from(s@, 0);
            match r {
                Some(c) => i < s@.len() && s@[i] == c,
                None => i >= s@.len(),
            }
        }),
{
    let n = s.unicode_len();
    let i = scan_non_space(s, 0);
    if i < n {
        Some(s.get_char(i))
    } else {
        None
    }
}

/// `s` trimmed of spaces and, when it is wrapped in a pair of single
/// quotes, of those quotes.
pub open spec fn spec_strip_quotes(s: Seq<char>) -> Seq<char> {
    let t = trim_spaces(s);
    if t.len() > 1 && t[0] == '\'' && t[t.len() - 1] == '\'' {
        t.subrange(1, t.len() - 1)
    } else {
        t
    }
}

/// Removes surrounding spaces and one pair of surrounding single
/// quotes, if present.
pub fn strip_single_quotes(s: &str) -> (r: String)
    ensures
        r@ == spec_strip_quotes(s@),
{
    let t = trim_str(s);
    let n = t.as_str().unicode_len();
    if n > 1 && t.as_str().get_char(0) == '\'' && t.as_str().get_char(n - 1) == '\'' {
        substr(t.as_str(), 1, n - 1)
    } else {
        t
    }
}

/// Consumes the next token and demands that it be `expected`, with a
/// syntax error otherwise.
pub fn expected_next_word(s: &mut String, expected: &str) -> (r: Result<(), ErrorType>)
    ensures
        match r {
            Ok(()) => spec_next_word(old(s)@) == Some((expected@, final(s)@)),
            Err(e) => e is InvalidSyntax && match spec_next_word(old(s)@) {
                Some(p) => p.0 != expected@ && final(s)@ == p.1,
                None => final(s)@ == old(s)@,
            },
        },
{
    match extract_next_word(s) {
        Some(word) => {
            if str_eq(word.as_str(), expected) {
                Ok(())
            } else {
                let mut msg = String::from_str("Expected '");
                msg.append(expected);
                msg.append("', found '");
                msg.append(word.as_str());
                msg.append("'");
                Err(ErrorType::InvalidSyntax(msg))
            }
        },
        None => {
            let mut msg = String::from_str("Expected '");
            msg.append(expected);
            msg.append("', found nothing");
            Err(ErrorType::InvalidSyntax(msg))
        },
    }
}

/// `s` cut at every comma; always at least one piece, commas removed.
pub open spec fn spec_split_commas(s: Seq<char>) -> Seq<Seq<char>>
    decreases s.len(),
{
    match find_char_from(s, ',', 0) {
        Some(p) => if 0 <= p < s.len() {
            seq![s.subrange(0, p)] + spec_split_commas(s.skip(p + 1))
        } else {
            seq![s]
        },
        None => seq![s],
    }
}

pub proof fn lemma_split_commas_len(s: Seq<char>)
    ensures
        spec_split_commas(s).len() >= 1,
    decreases s.len(),
{
    match find_char_from(s, ',', 0) {
        Some(p) => {
            if 0 <= p < s.len() {
                lemma_split_commas_len(s.skip(p + 1));
            }
        },
        None => {},
    }
}

/// Splits on commas, keeping each piece verbatim.
pub(crate) fn split_raw(s: &str) -> (r: Vec<String>)
    ensures
        r.deep_view() == spec_split_commas(s@),
    decreases s@.len(),
{
    let n = s.unicode_len();
    match scan_char(s, ',', 0) {
        Some(p) => {
            let head = substr(s, 0, p);
            let tail = s.substring_char(p + 1, n);
            proof {
                assert(tail@ =~= s@.skip(p + 1));
            }
            let mut rest = split_raw(tail);
            rest.insert(0, head);
            proof {
                assert(rest.deep_view() =~~= spec_split_commas(s@));
            }
            rest
        },
        None => {
            let whole = substr(s, 0, n);
            let mut one: Vec<String> = Vec::new();
            one.push(whole);
            proof {
                assert(one.deep_view() =~~= spec_split_commas(s@));
            }
            one
        },
    }
}

/// Reads one or more comma-separated table names; every name must be
/// nonempty, and the delimiter after the last name is left in place.
pub open spec fn spec_table_names(s: Seq<char>) -> Option<(Seq<Seq<char>>, Seq<char>)>
    decreases s.len(),
{
    let i = first_non_space_from(s, 0);
    let p = first_delim_or_len(s, i);
    if !(0 <= i < p) {
        None
    } else {
        let name = s.subrange(i, p);
        let j = first_non_space_from(s, p);
        if 0 <= j < s.len() && s[j] == ',' {
            match spec_table_names(s.skip(j + 1)) {
                Some(pr) => Some((seq![name] + pr.0, pr.1)),
                None => None,
            }
        } else {
            Some((seq![name], s.skip(p)))
        }
    }
}

/// Extracts the statement's table-name list: names separated by
/// commas, each ending at a delimiter; at least one nonempty name is
/// required.
pub fn extract_table_names(s: &mut String) -> (r: Result<Vec<String>, ErrorType>)
    ensures
        match r {
            Ok(v) => spec_table_names(old(s)@) == Some((v.deep_view(), final(s)@)),
            Err(e) => spec_table_names(old(s)@) is None && e is InvalidSyntax,
        },
    decreases old(s)@.len(),
{
    let ghost s0 = s@;
    let n = s.as_str().unicode_len();
    let i = scan_non_space(s.as_str(), 0);
    let p = scan_delim(s.as_str(), i);
    if p <= i {
        return Err(ErrorType::InvalidSyntax(String::from_str("Missing table names")));
    }
    let name = substr(s.as_str(), i, p);
    let j = scan_non_space(s.as_str(), p);
    if j < n && s.as_str().get_char(j) == ',' {
        let rest_s = substr(s.as_str(), j + 1, n);
        proof {
            assert(s0.subrange(j + 1, n as int) =~= s0.skip(j + 1));
        }
        *s = rest_s;
        match extract_table_names(s) {
            Ok(mut v) => {
                v.insert(0, name);
                proof {
                    assert(v.deep_view() =~~= seq![s0.subrange(i as int, p as int)]
                        + v.deep_view().skip(1));
                }
                Ok(v)
            },
            Err(e) => Err(e),
        }
    } else {
        let rest_s = substr(s.as_str(), p, n);
        proof {
            assert(s0.subrange(p as int, n as int) =~= s0.skip(p as int));
        }
        *s = rest_s;
        let mut v: Vec<String> = Vec::new();
        v.push(name);
        proof {
            assert(v.deep_view() =~~= seq![s0.subrange(i as int, p as int)]);
        }
        Ok(v)
    }
}

/// A parenthesized, comma-separated list: present only when the next
/// non-space character opens it, ending at the first closing
/// parenthesis; each item is trimmed and unquoted.
pub open spec fn spec_between_parens(s: Seq<char>) -> Option<(Seq<Seq<char>>, Seq<char>)> {
    let i = first_non_space_from(s, 0);
    if !(0 <= i < s.len() && s[i] == '(') {
        None
    } else {
        match find_char_from(s, ')', i) {
            Some(p) => Some(
                (
                    spec_split_commas(s.subrange(i + 1, p)).map_values(
                        |x: Seq<char>| spec_strip_quotes(x),
                    ),
                    s.skip(p + 1),
                ),
            ),
            None => None,
        }
    }
}

/// Extracts the values of a parenthesized list, split on commas, each
/// trimmed and stripped of surrounding single quotes.
pub fn extract_between_parenthesis(s: &mut String) -> (r: Result<Vec<String>, ErrorType>)
    ensures
        match r {
            Ok(v) => spec_between_parens(old(s)@) == Some((v.deep_view(), final(s)@)),
            Err(e) => spec_between_parens(old(s)@) is None && e is InvalidSyntax && final(s)@
                == old(s)@,
        },
{
    let ghost s0 = s@;
    let n = s.as_str().unicode_len();
    let i = scan_non_space(s.as_str(), 0);
    if i >= n || s.as_str().get_char(i) != '(' {
        return Err(ErrorType::InvalidSyntax(String::from_str("No opening parenthesis found")));
    }
    match scan_char(s.as_str(), ')', i) {
        Some(p) => {
            proof {
                lemma_find_char_from(s0, ')', i as int);
            }
            let inner = substr(s.as_str(), i + 1, p);
            let raw = split_raw(inner.as_str());
            let mut result: Vec<String> = Vec::new();
            let m = raw.len();
            let mut k: usize = 0;
            while k < m
                invariant
                    0 <= k <= m,
                    m == raw@.len(),
                    result@.len() == k,
                    forall|j: int| 0 <= j < k ==> result.deep_view()[j] == spec_strip_quotes(
                        #[trigger] raw.deep_view()[j],
                    ),
                decreases m - k,
            {
                let cleaned = strip_single_quotes(raw[k].as_str());
                result.push(cleaned);
                k = k + 1;
            }
            proof {
                assert(result.deep_view() =~~= raw.deep_view().map_values(
                    |x: Seq<char>| spec_strip_quotes(x),
                ));
                assert(s0.subrange(p + 1, n as int) =~= s0.skip(p + 1));
            }
            let rest_s = substr(s.as_str(), p + 1, n);
            *s = rest_s;
            Ok(result)
        },
        None => Err(ErrorType::InvalidSyntax(String::from_str("No closing parenthesis found"))),
    }
}

/// The requested column list of a `SELECT`: everything before the
/// first occurrence of `FROM`, comma-split and trimmed; the first
/// entry must be nonempty and `FROM` itself is left in place.
pub open spec fn spec_select_headers(s: Seq<char>) -> Option<(Seq<Seq<char>>, Seq<char>)> {
    match find_sub_from(s, "FROM"@, 0) {
        None => None,
        Some(p) => if 0 <= p <= s.len() {
            let items = spec_split_commas(s.subrange(0, p)).map_values(
                |x: Seq<char>| trim_spaces(x),
            );
            if items[0].len() == 0 {
                None
            } else {
                Some((items, s.skip(p)))
            }
        } else {
            None
        },
    }
}

/// Extracts the column list standing before `FROM` in a `SELECT`.
pub fn extract_select_headers(s: &mut String) -> (r: Result<Vec<String>, ErrorType>)
    ensures
        match r {
            Ok(v) => spec_select_headers(old(s)@) == Some((v.deep_view(), final(s)@)),
            Err(e) => spec_select_headers(old(s)@) is None && e is InvalidSyntax && final(s)@
                == old(s)@,
        },
{
    let ghost s0 = s@;
    let n = s.as_str().unicode_len();
    match scan_sub(s.as_str(), "FROM", 0) {
        None => Err(ErrorType::InvalidSyntax(String::from_str("Expected 'FROM' after headers"))),
        Some(p) => {
            let seg = substr(s.as_str(), 0, p);
            let raw = split_raw(seg.as_str());
            let mut result: Vec<String> = Vec::new();
            let m = raw.len();
            proof {
                lemma_split_commas_len(seg@);
            }
            let mut k: usize = 0;
            while k < m
                invariant
                    0 <= k <= m,
                    m == raw@.len(),
                    result@.len() == k,
                    forall|j: int| 0 <= j < k ==> result.deep_view()[j] == trim_spaces(
                        #[trigger] raw.deep_view()[j],
                    ),
                decreases m - k,
            {
                let cleaned = trim_str(raw[k].as_str());
                result.push(cleaned);
                k = k + 1;
            }
            proof {
                assert(result.deep_view() =~~= raw.deep_view().map_values(
                    |x: Seq<char>| trim_spaces(x),
                ));
            }
            if result[0].as_str().unicode_len() == 0 {
                return Err(
                    ErrorType::InvalidSyntax(
                        String::from_str("Expected headers or '*' after 'SELECT' command"),
                    ),
                );
            }
            proof {
                assert(s0.subrange(p as int, n as int) =~= s0.skip(p as int));
            }
            let rest_s = substr(s.as_str(), p, n);
            *s = rest_s;
            Ok(result)
        },
    }
}

/// One `column=value` item of a SET list: cut at the first equals
/// sign; the key is trimmed and must be nonempty, the value is
/// trimmed and unquoted and may be empty.
pub open spec fn spec_item_kv(item: Seq<char>) -> Option<(Seq<char>, Seq<char>)> {
    match find_char_from(item, '=', 0) {
        None => None,
        Some(q) => if 0 <= q <= item.len() {
            let k = trim_spaces(item.subrange(0, q));
            if k.len() == 0 {
                None
            } else {
                Some((k, spec_strip_quotes(item.skip(q + 1))))
            }
        } else {
            None
        },
    }
}

/// The mapping built by a list of SET items, in order, a later item
/// overwriting an earlier one with the same key; `None` when any item
/// is malformed.
pub open spec fn spec_updates_map(items: Seq<Seq<char>>) -> Option<Map<Seq<char>, Seq<char>>>
    decreases items.len(),
{
    if items.len() == 0 {
        Some(Map::empty())
    } else {
        match spec_updates_map(items.drop_last()) {
            Some(m) => match spec_item_kv(items.last()) {
                Some(kv) => Some(m.insert(kv.0, kv.1)),
                None => None,
            },
            None => None,
        }
    }
}

/// A malformed item anywhere spoils the whole SET list.
proof fn lemma_updates_map_bad_item(items: Seq<Seq<char>>, k: int)
    requires
        0 <= k < items.len(),
        spec_item_kv(items[k]) is None,
    ensures
        spec_updates_map(items) is None,
    decreases items.len(),
{
    if k < items.len() - 1 {
        assert(items.drop_last()[k] == items[k]);
        lemma_updates_map_bad_item(items.drop_last(), k);
    }
}

/// The SET assignment list: the text up to `WHERE`, or to the
/// terminator, or to the end; comma-split into `key=value` items.
pub open spec fn spec_updates(s: Seq<char>) -> Option<(Map<Seq<char>, Seq<char>>, Seq<char>)> {
    let end = match find_sub_from(s, "WHERE"@, 0) {
        Some(p) => p,
        None => match find_char_from(s, ';', 0) {
            Some(q) => q,
            None => s.len() as int,
        },
    };
    match spec_updates_map(spec_split_commas(trim_spaces(s.subrange(0, end)))) {
        Some(m) => Some((m, s.skip(end))),
        None => None,
    }
}

/// Extracts the SET assignment list of an `UPDATE`, leaving the text
/// from `WHERE` (or the terminator) onward in place.
pub fn extract_updates(s: &mut String) -> (r: Result<ValueMap, ErrorType>)
    ensures
        match r {
            Ok(m) => spec_updates(old(s)@) == Some((m@, final(s)@)),
            Err(e) => spec_updates(old(s)@) is None && e is InvalidSyntax && final(s)@ == old(
                s,
            )@,
        },
{
    let ghost s0 = s@;
    let n = s.as_str().unicode_len();
    let end: usize = match scan_sub(s.as_str(), "WHERE", 0) {
        Some(p) => p,
        None => match scan_char(s.as_str(), ';', 0) {
            Some(q) => q,
            None => n,
        },
    };
    proof {
        lemma_find_sub_from(s0, "WHERE"@, 0);
        lemma_find_char_from(s0, ';', 0);
    }
    let seg0 = substr(s.as_str(), 0, end);
    let seg = trim_str(seg0.as_str());
    let raw = split_raw(seg.as_str());
    let ghost items = spec_split_commas(trim_spaces(s0.subrange(0, end as int)));
    let mut vm = ValueMap::new();
    let m = raw.len();
    let mut k: usize = 0;
    proof {
        assert(raw.deep_view() == items);
    }
    while k < m
        invariant
            0 <= k <= m,
            m == raw@.len(),
            s0 == old(s)@,
            s@ == old(s)@,
            raw.deep_view() == items,
            spec_updates_map(items.subrange(0, k as int)) == Some(vm@),
            spec_updates(s0) == (match spec_updates_map(items) {
                Some(mm) => Some((mm, s0.skip(end as int))),
                None => None::<(Map<Seq<char>, Seq<char>>, Seq<char>)>,
            }),
        decreases m - k,
    {
        let item = &raw[k];
        let item_len = item.as_str().unicode_len();
        match scan_char(item.as_str(), '=', 0) {
            None => {
                proof {
                    lemma_updates_map_bad_item(items, k as int);
                }
                let mut msg = String::from_str("No equal sign found in update: ");
                msg.append(item.as_str());
                return Err(ErrorType::InvalidSyntax(msg));
            },
            Some(q) => {
                let key = trim_str(substr(item.as_str(), 0, q).as_str());
                if key.as_str().unicode_len() == 0 {
                    proof {
                        lemma_updates_map_bad_item(items, k as int);
                    }
                    return Err(
                        ErrorType::InvalidSyntax(
                            String::from_str("Key in update expression cannot be empty"),
                        ),
                    );
                }
                let value = strip_single_quotes(item.as_str().substring_char(q + 1, item_len));
                proof {
                    assert(item@.subrange(q + 1, item_len as int) =~= item@.skip(q + 1));
                    assert(items.subrange(0, k + 1).drop_last() =~= items.subrange(0, k as int));
                    assert(items.subrange(0, k + 1).last() == item@);
                }
                vm.insert(key, value);
            },
        }
        k = k + 1;
    }
    proof {
        assert(items.subrange(0, m as int) =~= items);
        assert(s0.subrange(end as int, n as int) =~= s0.skip(end as int));
    }
    let rest_s = substr(s.as_str(), end, n);
    *s = rest_s;
    Ok(vm)
}

/// The comparison operator a token denotes, if any.
pub open spec fn spec_op_of(w: Seq<char>) -> Option<ComparisonOp> {
    if w == "="@ {
        Some(ComparisonOp::Eq)
    } else if w == "!="@ {
        Some(ComparisonOp::Neq)
    } else if w == ">"@ {
        Some(ComparisonOp::Gt)
    } else if w == "<"@ {
        Some(ComparisonOp::Lt)
    } else if w == ">="@ {
        Some(ComparisonOp::Gte)
    } else if w == "<="@ {
        Some(ComparisonOp::Lte)
    } else {
        None
    }
}

fn op_token(w: &str) -> (r: Option<ComparisonOp>)
    ensures
        r == spec_op_of(w@),
{
    if str_eq(w, "=") {
        Some(ComparisonOp::Eq)
    } else if str_eq(w, "!=") {
        Some(ComparisonOp::Neq)
    } else if str_eq(w, ">") {
        Some(ComparisonOp::Gt)
    } else if str_eq(w, "<") {
        Some(ComparisonOp::Lt)
    } else if str_eq(w, ">=") {
        Some(ComparisonOp::Gte)
    } else if str_eq(w, "<=") {
        Some(ComparisonOp::Lte)
    } else {
        None
    }
}

/// A comparison or a parenthesized condition: either `( or_expr )`,
/// with spaces after the closing parenthesis consumed, or three
/// tokens `column op literal`.
pub open spec fn spec_parse_cmp(s: Seq<char>) -> Option<(ConditionView, Seq<char>)>
    decreases s.len(), 0int,
{
    let i = first_non_space_from(s, 0);
    if 0 <= i < s.len() && s[i] == '(' {
        match spec_parse_or(s.skip(i + 1)) {
            Some(pr) => {
                let j = first_non_space_from(pr.1, 0);
                if 0 <= j < pr.1.len() && pr.1[j] == ')' {
                    Some((pr.0, pr.1.skip(first_non_space_from(pr.1, j + 1))))
                } else {
                    None
                }
            },
            None => None,
        }
    } else {
        match spec_next_word(s) {
            Some(p1) => match spec_next_word(p1.1) {
                Some(p2) => match spec_next_word(p2.1) {
                    Some(p3) => match spec_op_of(p2.0) {
                        Some(op) => Some((ConditionView::Comparison(p1.0, op, p3.0), p3.1)),
                        None => None,
                    },
                    None => None,
                },
                None => None,
            },
            None => None,
        }
    }
}

/// `NOT comparison`, or a bare comparison; a boundary token (`ORDER`
/// or the terminator) here means the condition ended too early.
pub open spec fn spec_parse_not(s: Seq<char>) -> Option<(ConditionView, Seq<char>)>
    decreases s.len(), 1int,
{
    match spec_next_word(s) {
        None => spec_parse_cmp(s),
        Some(p) => if p.0 == "ORDER"@ || p.0 == ";"@ {
            None
        } else if p.0 == "NOT"@ {
            if p.1.len() < s.len() {
                match spec_parse_cmp(p.1) {
                    Some(q) => Some((ConditionView::Not(Box::new(q.0)), q.1)),
                    None => None,
                }
            } else {
                None
            }
        } else {
            spec_parse_cmp(s)
        },
    }
}

/// Left-associative folding of `AND` over negations.
pub open spec fn spec_parse_and(s: Seq<char>) -> Option<(ConditionView, Seq<char>)>
    decreases s.len(), 2int,
{
    match spec_parse_not(s) {
        Some(p) => if p.1.len() < s.len() {
            spec_and_more(p.0, p.1)
        } else {
            Some(p)
        },
        None => None,
    }
}

pub open spec fn spec_and_more(left: ConditionView, s: Seq<char>) -> Option<
    (ConditionView, Seq<char>),
>
    decreases s.len(), 3int,
{
    match spec_next_word(s) {
        None => Some((left, s)),
        Some(p) => if p.0 == "AND"@ {
            if p.1.len() < s.len() {
                match spec_parse_not(p.1) {
                    Some(q) => if q.1.len() < s.len() {
                        spec_and_more(ConditionView::And(Box::new(left), Box::new(q.0)), q.1)
                    } else {
                        None
                    },
                    None => None,
                }
            } else {
                None
            }
        } else {
            Some((left, s))
        },
    }
}

/// Left-associative folding of `OR` over conjunctions: the whole
/// grammar of a `WHERE` condition.
pub open spec fn spec_parse_or(s: Seq<char>) -> Option<(ConditionView, Seq<char>)>
    decreases s.len(), 4int,
{
    match spec_parse_and(s) {
        Some(p) => if p.1.len() < s.len() {
            spec_or_more(p.0, p.1)
        } else {
            Some(p)
        },
        None => None,
    }
}

pub open spec fn spec_or_more(left: ConditionView, s: Seq<char>) -> Option<
    (ConditionView, Seq<char>),
>
    decreases s.len(), 5int,
{
    match spec_next_word(s) {
        None => Some((left, s)),
        Some(p) => if p.0 == "OR"@ {
            if p.1.len() < s.len() {
                match spec_parse_and(p.1) {
                    Some(q) => if q.1.len() < s.len() {
                        spec_or_more(ConditionView::Or(Box::new(left), Box::new(q.0)), q.1)
                    } else {
                        None
                    },
                    None => None,
                }
            } else {
                None
            }
        } else {
            Some((left, s))
        },
    }
}

fn parse_comparison_condition(s: &mut String) -> (r: Result<Condition, ErrorType>)
    ensures
        match r {
            Ok(c) => spec_parse_cmp(old(s)@) == Some((c@, final(s)@)) && final(s)@.len() < old(
                s,
            )@.len(),
            Err(e) => spec_parse_cmp(old(s)@) is None && e is InvalidSyntax,
        },
    decreases s@.len(), 0int,
{
    let ghost s0 = s@;
    let n = s.as_str().unicode_len();
    let i = scan_non_space(s.as_str(), 0);
    if i < n && s.as_str().get_char(i) == '(' {
        let inner_s = substr(s.as_str(), i + 1, n);
        proof {
            assert(s0.subrange(i + 1, n as int) =~= s0.skip(i + 1));
        }
        *s = inner_s;
        let cond = match extract_and_parse_where_clause(s) {
            Ok(c) => c,
            Err(e) => {
                return Err(e);
            },
        };
        let n2 = s.as_str().unicode_len();
        let j = scan_non_space(s.as_str(), 0);
        if j < n2 && s.as_str().get_char(j) == ')' {
            let k2 = scan_non_space(s.as_str(), j + 1);
            let rest_s = substr(s.as_str(), k2, n2);
            proof {
                assert(s@.subrange(k2 as int, n2 as int) =~= s@.skip(k2 as int));
            }
            *s = rest_s;
            Ok(cond)
        } else {
            Err(ErrorType::InvalidSyntax(String::from_str("Missing closing \')\'")))
        }
    } else {
        let left = match extract_next_word(s) {
            Some(w) => w,
            None => {
                return Err(ErrorType::InvalidSyntax(String::from_str("Missing left operand")));
            },
        };
        let ghost sa = s@;
        let opw = match extract_next_word(s) {
            Some(w) => w,
            None => {
                return Err(ErrorType::InvalidSyntax(String::from_str("Missing operator")));
            },
        };
        let ghost sb = s@;
        let right = match extract_next_word(s) {
            Some(w) => w,
            None => {
                return Err(ErrorType::InvalidSyntax(String::from_str("Missing right operand")));
            },
        };
        proof {
            lemma_next_word_progress(s0);
            lemma_next_word_progress(sa);
            lemma_next_word_progress(sb);
        }
        match op_token(opw.as_str()) {
            Some(op) => Ok(Condition::Comparison(left, op, right)),
            None => {
                let mut msg = String::from_str("Unsupported comparison operator: ");
                msg.append(opw.as_str());
                Err(ErrorType::InvalidSyntax(msg))
            },
        }
    }
}

fn parse_not_condition(s: &mut String) -> (r: Result<Condition, ErrorType>)
    ensures
        match r {
            Ok(c) => spec_parse_not(old(s)@) == Some((c@, final(s)@)) && final(s)@.len() < old(
                s,
            )@.len(),
            Err(e) => spec_parse_not(old(s)@) is None && e is InvalidSyntax,
        },
    decreases s@.len(), 1int,
{
    let ghost s0 = s@;
    match peek_next_word(s) {
        None => parse_comparison_condition(s),
        Some(w) => {
            if str_eq(w.as_str(), "ORDER") || str_eq(w.as_str(), ";") {
                Err(ErrorType::InvalidSyntax(String::from_str("Unexpected end of condition")))
            } else if str_eq(w.as_str(), "NOT") {
                let consumed = extract_next_word(s);
                proof {
                    lemma_next_word_progress(s0);
                }
                match parse_comparison_condition(s) {
                    Ok(c) => Ok(Condition::Not(Box::new(c))),
                    Err(e) => Err(e),
                }
            } else {
                parse_comparison_condition(s)
            }
        },
    }
}

fn parse_and_more(left: Condition, s: &mut String) -> (r: Result<Condition, ErrorType>)
    ensures
        match r {
            Ok(c) => spec_and_more(left@, old(s)@) == Some((c@, final(s)@)) && final(s)@.len()
                <= old(s)@.len(),
            Err(e) => spec_and_more(left@, old(s)@) is None && e is InvalidSyntax,
        },
    decreases s@.len(), 3int,
{
    let ghost s0 = s@;
    match peek_next_word(s) {
        None => Ok(left),
        Some(w) => {
            if str_eq(w.as_str(), "AND") {
                let consumed = extract_next_word(s);
                proof {
                    lemma_next_word_progress(s0);
                }
                let right = match parse_not_condition(s) {
                    Ok(c) => c,
                    Err(e) => {
                        return Err(e);
                    },
                };
                parse_and_more(Condition::And(Box::new(left), Box::new(right)), s)
            } else {
                Ok(left)
            }
        },
    }
}

fn parse_and_condition(s: &mut String) -> (r: Result<Condition, ErrorType>)
    ensures
        match r {
            Ok(c) => spec_parse_and(old(s)@) == Some((c@, final(s)@)) && final(s)@.len() < old(
                s,
            )@.len(),
            Err(e) => spec_parse_and(old(s)@) is None && e is InvalidSyntax,
        },
    decreases s@.len(), 2int,
{
    let left = match parse_not_condition(s) {
        Ok(c) => c,
        Err(e) => {
            return Err(e);
        },
    };
    parse_and_more(left, s)
}

fn parse_or_more(left: Condition, s: &mut String) -> (r: Result<Condition, ErrorType>)
    ensures
        match r {
            Ok(c) => spec_or_more(left@, old(s)@) == Some((c@, final(s)@)) && final(s)@.len()
                <= old(s)@.len(),
            Err(e) => spec_or_more(left@, old(s)@) is None && e is InvalidSyntax,
        },
    decreases s@.len(), 5int,
{
    let ghost s0 = s@;
    match peek_next_word(s) {
        None => Ok(left),
        Some(w) => {
            if str_eq(w.as_str(), "OR") {
                let consumed = extract_next_word(s);
                proof {
                    lemma_next_word_progress(s0);
                }
                let right = match parse_and_condition(s) {
                    Ok(c) => c,
                    Err(e) => {
                        return Err(e);
                    },
                };
                parse_or_more(Condition::Or(Box::new(left), Box::new(right)), s)
            } else {
                Ok(left)
            }
        },
    }
}

fn parse_or_condition(s: &mut String) -> (r: Result<Condition, ErrorType>)
    ensures
        match r {
            Ok(c) => spec_parse_or(old(s)@) == Some((c@, final(s)@)) && final(s)@.len() < old(
                s,
            )@.len(),
            Err(e) => spec_parse_or(old(s)@) is None && e is InvalidSyntax,
        },
    decreases s@.len(), 4int,
{
    let left = match parse_not_condition(s) {
        Ok(c) => c,
        Err(e) => {
            return Err(e);
        },
    };
    let left = match parse_and_more(left, s) {
        Ok(c) => c,
        Err(e) => {
            return Err(e);
        },
    };
    parse_or_more(left, s)
}

/// Parses a full `WHERE` condition: `OR` over `AND` over `NOT` over
/// comparisons and parenthesized groups, folded left-associatively;
/// it stops before a following `ORDER` clause or the terminator.
pub fn extract_and_parse_where_clause(s: &mut String) -> (r: Result<Condition, ErrorType>)
    ensures
        match r {
            Ok(c) => spec_parse_or(old(s)@) == Some((c@, final(s)@)) && final(s)@.len() < old(
                s,
            )@.len(),
            Err(e) => spec_parse_or(old(s)@) is None && e is InvalidSyntax,
        },
    decreases s@.len(), 6int,
{
    parse_or_condition(s)
}

/// The keys of an `ORDER BY` clause after `BY`: columns, each with an
/// optional `ASC`/`DESC` (ascending when absent), up to the
/// terminator or the end; an unrecognized direction token is an
/// error.
pub open spec fn spec_order_items(s: Seq<char>) -> Option<(Seq<OrderByView>, Seq<char>)>
    decreases s.len(),
{
    match spec_next_word(s) {
        None => Some((Seq::<OrderByView>::empty(), s)),
        Some(p) => if p.0 == ";"@ {
            Some((Seq::<OrderByView>::empty(), s))
        } else {
            let dirres = match spec_next_word(p.1) {
                None => Some((Direction::Ascending, p.1)),
                Some(q) => if q.0 == "ASC"@ {
                    Some((Direction::Ascending, q.1))
                } else if q.0 == "DESC"@ {
                    Some((Direction::Descending, q.1))
                } else if q.0 == ";"@ {
                    Some((Direction::Ascending, p.1))
                } else {
                    None
                },
            };
            match dirres {
                None => None,
                Some(dr) => if dr.1.len() < s.len() {
                    match spec_order_items(dr.1) {
                        Some(t) => Some(
                            (seq![OrderByView { column: p.0, direction: dr.0 }] + t.0, t.1),
                        ),
                        None => None,
                    }
                } else {
                    None
                },
            }
        },
    }
}

/// A whole `ORDER` clause after the word `ORDER`: the literal `BY`,
/// then at least one sort key.
pub open spec fn spec_order_clause(s: Seq<char>) -> Option<(Seq<OrderByView>, Seq<char>)> {
    match spec_next_word(s) {
        None => None,
        Some(p) => if p.0 != "BY"@ {
            None
        } else {
            match spec_order_items(p.1) {
                Some(t) => if t.0.len() == 0 {
                    None
                } else {
                    Some(t)
                },
                None => None,
            }
        },
    }
}

fn order_items(s: &mut String) -> (r: Result<Vec<OrderBy>, ErrorType>)
    ensures
        match r {
            Ok(v) => spec_order_items(old(s)@) == Some((v.deep_view(), final(s)@)),
            Err(e) => spec_order_items(old(s)@) is None && e is InvalidSyntax,
        },
    decreases s@.len(),
{
    let ghost s0 = s@;
    match peek_next_word(s) {
        None => {
            let v: Vec<OrderBy> = Vec::new();
            proof {
                assert(v.deep_view() =~= Seq::<OrderByView>::empty());
            }
            Ok(v)
        },
        Some(w) => {
            if str_eq(w.as_str(), ";") {
                let v: Vec<OrderBy> = Vec::new();
                proof {
                    assert(v.deep_view() =~= Seq::<OrderByView>::empty());
                }
                Ok(v)
            } else {
                let column = match extract_next_word(s) {
                    Some(t) => t,
                    None => {
                        return Err(
                            ErrorType::InvalidSyntax(String::from_str("Missing sort column")),
                        );
                    },
                };
                proof {
                    lemma_next_word_progress(s0);
                }
                let ghost s1 = s@;
                let direction = match peek_next_word(s) {
                    None => Direction::Ascending,
                    Some(d) => {
                        if str_eq(d.as_str(), "ASC") {
                            let consumed = extract_next_word(s);
                            proof {
                                lemma_next_word_progress(s1);
                            }
                            Direction::Ascending
                        } else if str_eq(d.as_str(), "DESC") {
                            let consumed = extract_next_word(s);
                            proof {
                                lemma_next_word_progress(s1);
                            }
                            Direction::Descending
                        } else if str_eq(d.as_str(), ";") {
                            Direction::Ascending
                        } else {
                            let mut msg = String::from_str("Unexpected token after column: ");
                            msg.append(d.as_str());
                            return Err(ErrorType::InvalidSyntax(msg));
                        }
                    },
                };
                let mut rest = match order_items(s) {
                    Ok(v) => v,
                    Err(e) => {
                        return Err(e);
                    },
                };
                rest.insert(0, OrderBy { column, direction });
                proof {
                    assert(rest.deep_view() =~~= seq![
                        OrderByView { column: rest@[0].column@, direction: rest@[0].direction },
                    ] + rest.deep_view().skip(1));
                }
                Ok(rest)
            }
        },
    }
}

/// Parses the `ORDER BY` clause standing after the word `ORDER`:
/// requires the literal `BY` and at least one sort key; a direction
/// is `ASC` or `DESC` and defaults to ascending.
pub fn extract_and_parse_order_clause(s: &mut String) -> (r: Result<Vec<OrderBy>, ErrorType>)
    ensures
        match r {
            Ok(v) => spec_order_clause(old(s)@) == Some((v.deep_view(), final(s)@)) && v@.len()
                > 0,
            Err(e) => spec_order_clause(old(s)@) is None && e is InvalidSyntax,
        },
{
    match expected_next_word(s, "BY") {
        Ok(()) => {},
        Err(e) => {
            return Err(e);
        },
    }
    let items = match order_items(s) {
        Ok(v) => v,
        Err(e) => {
            return Err(e);
        },
    };
    if items.len() == 0 {
        return Err(
            ErrorType::InvalidSyntax(String::from_str("Expected at least one column to sort by")),
        );
    }
    Ok(items)
}

/// A plain token: nonempty text containing no delimiter, operator
/// character or quote, so the cursor reads it whole.
pub open spec fn plain_token(w: Seq<char>) -> bool {
    w.len() > 0 && forall|j: int|
        0 <= j < w.len() ==> !is_delim(#[trigger] w[j]) && !is_op_char(w[j]) && w[j] != '\''
}

/// The first break at or after `k` is the known one at `b`.
pub proof fn lemma_find_break_at(text: Seq<char>, k: int, b: int)
    requires
        0 <= k <= b < text.len(),
        forall|j: int| k <= j < b ==> !is_delim(#[trigger] text[j]) && !is_op_char(text[j]),
        is_delim(text[b]) || is_op_char(text[b]),
    ensures
        find_break_from(text, k) == Some(b),
    decreases b - k,
{
    if k < b {
        lemma_find_break_at(text, k + 1, b);
    }
}

/// The first delimiter at or after `k` is the known one at `b`.
pub proof fn lemma_find_delim_at(text: Seq<char>, k: int, b: int)
    requires
        0 <= k <= b < text.len(),
        forall|j: int| k <= j < b ==> !is_delim(#[trigger] text[j]),
        is_delim(text[b]),
    ensures
        find_delim_from(text, k) == Some(b),
    decreases b - k,
{
    if k < b {
        lemma_find_delim_at(text, k + 1, b);
    }
}

/// Reading a plain token followed by a space yields the token and
/// leaves exactly what follows the space.
pub proof fn lemma_next_word_space_sep(w: Seq<char>, rest: Seq<char>)
    requires
        plain_token(w),
    ensures
        spec_next_word(w + " "@ + rest) == Some((w, rest)),
{
    reveal_strlit(" ");
    let text = w + " "@ + rest;
    assert(text[0] == w[0]);
    assert(first_non_space_from(text, 0) == 0);
    assert(forall|j: int|
        0 <= j < w.len() ==> !is_delim(#[trigger] text[j]) && !is_op_char(text[j]));
    assert(text[w.len() as int] == ' ');
    lemma_find_break_at(text, 0, w.len() as int);
    assert(text.subrange(0, w.len() as int) =~= w);
    assert(text.skip(w.len() as int + 1) =~= rest);
}

/// A single plain name followed by the terminator is a complete
/// table-name list, the terminator left in place.
pub proof fn lemma_table_names_single(t: Seq<char>)
    requires
        plain_token(t),
    ensures
        spec_table_names(t + ";"@) == Some((seq![t], ";"@)),
{
    reveal_strlit(";");
    let text = t + ";"@;
    assert(text[0] == t[0]);
    assert(first_non_space_from(text, 0) == 0);
    assert(forall|j: int| 0 <= j < t.len() ==> !is_delim(#[trigger] text[j]));
    assert(text[t.len() as int] == ';');
    lemma_find_delim_at(text, 0, t.len() as int);
    assert(first_delim_or_len(text, 0) == t.len());
    assert(text.subrange(0, t.len() as int) =~= t);
    assert(first_non_space_from(text, t.len() as int) == t.len());
    assert(text[t.len() as int] != ',');
    assert(text.skip(t.len() as int) =~= ";"@);
    assert(spec_table_names(text) == Some((seq![text.subrange(0, t.len() as int)], text.skip(
        t.len() as int,
    ))));
    assert(seq![text.subrange(0, t.len() as int)] =~= seq![t]);
}

/// The first occurrence of `c` at or after `k` is the known one at
/// `b`.
pub proof fn lemma_find_char_at(text: Seq<char>, c: char, k: int, b: int)
    requires
        0 <= k <= b < text.len(),
        forall|j: int| k <= j < b ==> #[trigger] text[j] != c,
        text[b] == c,
    ensures
        find_char_from(text, c, k) == Some(b),
    decreases b - k,
{
    if k < b {
        lemma_find_char_at(text, c, k + 1, b);
    }
}

/// `c` does not occur at or after `k`.
pub proof fn lemma_find_char_none(text: Seq<char>, c: char, k: int)
    requires
        0 <= k,
        forall|j: int| k <= j < text.len() ==> #[trigger] text[j] != c,
    ensures
        find_char_from(text, c, k) is None,
    decreases text.len() - k,
{
    if k < text.len() {
        lemma_find_char_none(text, c, k + 1);
    }
}

/// A plain token passes through trimming and quote-stripping
/// unchanged.
pub proof fn lemma_strip_plain_token(w: Seq<char>)
    requires
        plain_token(w),
    ensures
        trim_spaces(w) == w,
        spec_strip_quotes(w) == w,
{
    assert(first_non_space_from(w, 0) == 0);
    assert(crate::scan::last_non_space_to(w, w.len() as int) == w.len());
    assert(w.subrange(0, w.len() as int) =~= w);
}

/// Reading a plain token after one leading space, with a space after
/// it, yields the token and what follows the second space.
pub proof fn lemma_next_word_one_leading_space(w: Seq<char>, rest: Seq<char>)
    requires
        plain_token(w),
    ensures
        spec_next_word(" "@ + w + " "@ + rest) == Some((w, rest)),
{
    reveal_strlit(" ");
    let text = " "@ + w + " "@ + rest;
    assert(text[0] == ' ');
    assert(text[1] == w[0]);
    assert(first_non_space_from(text, 1) == 1);
    assert(first_non_space_from(text, 0) == 1);
    assert(forall|j: int|
        1 <= j < w.len() + 1 ==> !is_delim(#[trigger] text[j]) && !is_op_char(text[j]));
    assert(text[w.len() as int + 1] == ' ');
    lemma_find_break_at(text, 1, w.len() as int + 1);
    assert(text.subrange(1, w.len() as int + 1) =~= w);
    assert(text.skip(w.len() as int + 2) =~= rest);
}

/// A single plain name followed by a space and more text is a
/// complete table-name list; the space is left in place.
pub proof fn lemma_table_names_single_sep(t: Seq<char>, rest: Seq<char>)
    requires
        plain_token(t),
        rest.len() > 0,
        rest[0] != ' ',
        rest[0] != ',',
    ensures
        spec_table_names(t + " "@ + rest) == Some((seq![t], " "@ + rest)),
{
    reveal_strlit(" ");
    let text = t + " "@ + rest;
    assert(text[0] == t[0]);
    assert(first_non_space_from(text, 0) == 0);
    assert(forall|j: int| 0 <= j < t.len() ==> !is_delim(#[trigger] text[j]));
    assert(text[t.len() as int] == ' ');
    lemma_find_delim_at(text, 0, t.len() as int);
    assert(first_delim_or_len(text, 0) == t.len());
    assert(text.subrange(0, t.len() as int) =~= t);
    assert(text[t.len() as int + 1] == rest[0]);
    assert(first_non_space_from(text, t.len() as int + 1) == t.len() + 1);
    assert(first_non_space_from(text, t.len() as int) == t.len() + 1);
    assert(text[t.len() as int + 1] != ',');
    assert(text.skip(t.len() as int) =~= " "@ + rest);
    assert(seq![text.subrange(0, t.len() as int)] =~= seq![t]);
}

/// A parenthesized single plain value followed by the terminator:
/// one item, the terminator left in place.
pub proof fn lemma_between_parens_single(v: Seq<char>)
    requires
        plain_token(v),
    ensures
        spec_between_parens("("@ + v + ");"@) == Some((seq![v], ";"@)),
{
    reveal_strlit("(");
    reveal_strlit(");");
    reveal_strlit(";");
    let text = "("@ + v + ");"@;
    assert(text[0] == '(');
    assert(first_non_space_from(text, 0) == 0);
    assert(forall|j: int| 1 <= j < v.len() + 1 ==> #[trigger] text[j] != ')');
    assert(text[v.len() as int + 1] == ')');
    lemma_find_char_at(text, ')', 0, v.len() as int + 1);
    let inner = text.subrange(1, v.len() as int + 1);
    assert(inner =~= v);
    assert(forall|j: int| 0 <= j < v.len() ==> #[trigger] v[j] != ',');
    lemma_find_char_none(v, ',', 0);
    assert(spec_split_commas(v) == seq![v]);
    lemma_strip_plain_token(v);
    assert(spec_split_commas(v).map_values(|x: Seq<char>| spec_strip_quotes(x)) =~= seq![v]);
    assert(text.skip(v.len() as int + 2) =~= ";"@);
}

/// The first occurrence of `pat` at or after `k` is the known one at
/// `b`.
pub proof fn lemma_find_sub_at(text: Seq<char>, pat: Seq<char>, k: int, b: int)
    requires
        0 <= k <= b,
        b + pat.len() <= text.len(),
        forall|i: int| k <= i < b ==> #[trigger] text.subrange(i, i + pat.len() as int) != pat,
        text.subrange(b, b + pat.len() as int) == pat,
    ensures
        find_sub_from(text, pat, k) == Some(b),
    decreases b - k,
{
    if k < b {
        lemma_find_sub_at(text, pat, k + 1, b);
    }
}

/// A plain token with one trailing space trims back to the token.
pub proof fn lemma_trim_trailing_space(w: Seq<char>)
    requires
        plain_token(w),
    ensures
        trim_spaces(w + " "@) == w,
{
    reveal_strlit(" ");
    let text = w + " "@;
    assert(text[0] == w[0]);
    assert(first_non_space_from(text, 0) == 0);
    assert(text[text.len() - 1] == ' ');
    assert(text[w.len() as int - 1] == w[w.len() - 1]);
    assert(crate::scan::last_non_space_to(text, w.len() as int) == w.len());
    assert(crate::scan::last_non_space_to(text, text.len() as int) == w.len());
    assert(text.subrange(0, w.len() as int) =~= w);
}

/// A lone plain column name before `FROM` is a complete `SELECT`
/// column list, provided the name itself nowhere spells `FROM`.
pub proof fn lemma_select_headers_single(c: Seq<char>, rest: Seq<char>)
    requires
        plain_token(c),
        forall|k: int| 0 <= k <= c.len() - 4 ==> #[trigger] c.subrange(k, k + 4) != "FROM"@,
    ensures
        spec_select_headers(c + " "@ + "FROM"@ + rest) == Some(
            (seq![c], "FROM"@ + rest),
        ),
{
    reveal_strlit(" ");
    reveal_strlit("FROM");
    let text = c + " "@ + "FROM"@ + rest;
    let b = c.len() as int + 1;
    assert(("FROM"@).len() == 4);
    assert(text.subrange(b, b + 4) =~= "FROM"@);
    assert forall|i: int| 0 <= i < b implies #[trigger] text.subrange(i, i + 4) != "FROM"@ by {
        if i + 4 <= c.len() {
            assert(text.subrange(i, i + 4) =~= c.subrange(i, i + 4));
        } else if i < c.len() + 1 {
            // the window covers the separating space, and FROM has none
            let k = c.len() as int - i;
            assert(0 <= k < 4);
            assert(text.subrange(i, i + 4)[k] == ' ');
            assert(("FROM"@)[k] != ' ');
        }
    }
    lemma_find_sub_at(text, "FROM"@, 0, b);
    let before = text.subrange(0, b);
    assert(before =~= c + " "@);
    assert(forall|j: int| 0 <= j < before.len() ==> #[trigger] before[j] != ',');
    lemma_find_char_none(before, ',', 0);
    assert(spec_split_commas(before) == seq![before]);
    lemma_trim_trailing_space(c);
    assert(spec_split_commas(before).map_values(|x: Seq<char>| trim_spaces(x)) =~= seq![c]);
    assert(c.len() > 0);
    assert(text.skip(b) =~= "FROM"@ + rest);
}

/// `pat` does not occur at or after `k`.
pub proof fn lemma_find_sub_none(text: Seq<char>, pat: Seq<char>, k: int)
    requires
        0 <= k,
        forall|i: int|
            k <= i && i + pat.len() <= text.len() ==> #[trigger] text.subrange(
                i,
                i + pat.len() as int,
            ) != pat,
    ensures
        find_sub_from(text, pat, k) is None,
    decreases text.len() - k + 1,
{
    if k + pat.len() <= text.len() {
        lemma_find_sub_none(text, pat, k + 1);
    }
}

/// A single `column=value` item of plain tokens, directly before the
/// terminator, is a complete SET list binding that column to that
/// value; the terminator is left in place. The tokens must nowhere
/// spell `WHERE`, which would cut the list short.
pub proof fn lemma_updates_single(c: Seq<char>, v: Seq<char>)
    requires
        plain_token(c),
        plain_token(v),
        forall|k: int| 0 <= k <= c.len() - 5 ==> #[trigger] c.subrange(k, k + 5) != "WHERE"@,
        forall|k: int| 0 <= k <= v.len() - 5 ==> #[trigger] v.subrange(k, k + 5) != "WHERE"@,
    ensures
        spec_updates(c + "="@ + v + ";"@) == Some(
            (Map::<Seq<char>, Seq<char>>::empty().insert(c, v), ";"@),
        ),
{
    reveal_strlit("=");
    reveal_strlit(";");
    reveal_strlit("WHERE");
    let text = c + "="@ + v + ";"@;
    let cl = c.len() as int;
    let vl = v.len() as int;
    assert(("WHERE"@).len() == 5);

    // WHERE occurs nowhere: every window holds the equals sign, the
    // terminator, or lies inside one of the plain tokens
    assert forall|i: int|
        0 <= i && i + 5 <= text.len() implies #[trigger] text.subrange(i, i + 5)
        != "WHERE"@ by {
        if i + 5 <= cl {
            assert(text.subrange(i, i + 5) =~= c.subrange(i, i + 5));
        } else if i <= cl {
            let k = cl - i;
            assert(text.subrange(i, i + 5)[k] == '=');
            assert(("WHERE"@)[k] != '=');
        } else if i + 5 <= cl + 1 + vl {
            assert(text.subrange(i, i + 5) =~= v.subrange(i - cl - 1, i - cl - 1 + 5));
        } else {
            let k = cl + 1 + vl - i;
            assert(0 <= k < 5);
            assert(text.subrange(i, i + 5)[k] == ';');
            assert(("WHERE"@)[k] != ';');
        }
    }
    lemma_find_sub_none(text, "WHERE"@, 0);

    // the terminator ends the list
    assert(forall|j: int| 0 <= j < cl + 1 + vl ==> #[trigger] text[j] != ';');
    assert(text[cl + 1 + vl] == ';');
    lemma_find_char_at(text, ';', 0, cl + 1 + vl);

    // the one item splits at its equals sign
    let seg0 = text.subrange(0, cl + 1 + vl);
    assert(seg0[0] == c[0]);
    assert(first_non_space_from(seg0, 0) == 0);
    assert(seg0[seg0.len() - 1] == v[vl - 1]);
    assert(crate::scan::last_non_space_to(seg0, seg0.len() as int) == seg0.len());
    assert(trim_spaces(seg0) =~= seg0);
    assert(forall|j: int| 0 <= j < seg0.len() ==> #[trigger] seg0[j] != ',');
    lemma_find_char_none(seg0, ',', 0);
    assert(spec_split_commas(seg0) == seq![seg0]);
    assert(forall|j: int| 0 <= j < cl ==> #[trigger] seg0[j] != '=');
    assert(seg0[cl] == '=');
    lemma_find_char_at(seg0, '=', 0, cl);
    assert(seg0.subrange(0, cl) =~= c);
    lemma_strip_plain_token(c);
    assert(trim_spaces(seg0.subrange(0, cl)) == c);
    assert(seg0.skip(cl + 1) =~= v);
    lemma_strip_plain_token(v);
    assert(spec_item_kv(seg0) == Some((c, v)));
    assert(seq![seg0].drop_last() =~= Seq::<Seq<char>>::empty());
    assert(spec_updates_map(Seq::<Seq<char>>::empty()) == Some(
        Map::<Seq<char>, Seq<char>>::empty(),
    ));
    assert(seq![seg0].last() == seg0);
    assert(spec_updates_map(seq![seg0]) == Some(
        Map::<Seq<char>, Seq<char>>::empty().insert(c, v),
    ));
    assert(text.skip(cl + 1 + vl) =~= ";"@);
}

/// Reading the equality operator followed by a space yields the
/// operator token and leaves the space behind.
pub proof fn lemma_next_word_eq_op(rest: Seq<char>)
    ensures
        spec_next_word("="@ + " "@ + rest) == Some(("="@, " "@ + rest)),
{
    reveal_strlit("=");
    reveal_strlit(" ");
    let text = "="@ + " "@ + rest;
    assert(text[0] == '=');
    assert(first_non_space_from(text, 0) == 0);
    assert(text[1] == ' ');
    assert(first_non_op_from(text, 1) == 1);
    assert(first_non_op_from(text, 0) == 1);
    assert(text.subrange(0, 1) =~= "="@);
    assert(text.skip(1) =~= " "@ + rest);
}

/// Reading a plain token after one leading space, directly before
/// the terminator, yields the token and consumes the terminator.
pub proof fn lemma_next_word_leading_space_semi(w: Seq<char>, rest: Seq<char>)
    requires
        plain_token(w),
    ensures
        spec_next_word(" "@ + w + ";"@ + rest) == Some((w, rest)),
{
    reveal_strlit(" ");
    reveal_strlit(";");
    let text = " "@ + w + ";"@ + rest;
    assert(text[0] == ' ');
    assert(text[1] == w[0]);
    assert(first_non_space_from(text, 1) == 1);
    assert(first_non_space_from(text, 0) == 1);
    assert(forall|j: int|
        1 <= j < w.len() + 1 ==> !is_delim(#[trigger] text[j]) && !is_op_char(text[j]));
    assert(text[w.len() as int + 1] == ';');
    lemma_find_break_at(text, 1, w.len() as int + 1);
    assert(text.subrange(1, w.len() as int + 1) =~= w);
    assert(text.skip(w.len() as int + 2) =~= rest);
}

} // verus!
