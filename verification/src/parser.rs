//! The top-level statement parser: terminator handling, verb
//! dispatch, and one parser per verb.

use vstd::prelude::*;

use crate::command_types::{ci_eq, cond_opt_view, order_opt_view, Commands, CommandsView};
use crate::condition::{Condition, ConditionView};
use crate::errors::{ErrorKind, ErrorType};
use crate::extract_query::{
    extract_and_parse_order_clause, extract_and_parse_where_clause, extract_between_parenthesis,
    extract_next_word, extract_select_headers, extract_table_names, extract_updates,
    expected_next_word, get_next_char, lemma_next_word_progress, spec_between_parens,
    spec_next_word, spec_order_clause, spec_order_items, spec_parse_or, spec_select_headers,
    spec_table_names, spec_updates,
};
use crate::order::{OrderBy, OrderByView};
use crate::scan::{first_non_space_from, last_non_space_to, str_eq};

verus! {

/// The statement with a terminator appended when its trimmed end
/// lacks one.
pub open spec fn spec_terminated(s: Seq<char>) -> Seq<char> {
    let b = last_non_space_to(s, s.len() as int);
    if b > 0 && s[b - 1] == ';' {
        s
    } else {
        s + ";"@
    }
}

/// The optional `WHERE` tail of an `UPDATE` or `DELETE`: nothing, a
/// bare terminator, or `WHERE` followed by a condition; any other
/// token is a syntax error.
pub open spec fn spec_where_tail(s: Seq<char>) -> Result<
    (Option<ConditionView>, Seq<char>),
    ErrorKind,
> {
    match spec_next_word(s) {
        None => Ok((None::<ConditionView>, s)),
        Some(p) => if p.0 == "WHERE"@ {
            match spec_parse_or(p.1) {
                Some(c) => Ok((Some(c.0), c.1)),
                None => Err(ErrorKind::Syntax),
            }
        } else if p.0 == ";"@ {
            Ok((None::<ConditionView>, p.1))
        } else {
            Err(ErrorKind::Syntax)
        },
    }
}

fn where_tail(s: &mut String) -> (r: Result<Option<Condition>, ErrorType>)
    ensures
        match r {
            Ok(c) => spec_where_tail(old(s)@) == Ok::<_, ErrorKind>((cond_opt_view(&c), final(s)@)),
            Err(e) => spec_where_tail(old(s)@) == Err::<
                (Option<ConditionView>, Seq<char>),
                ErrorKind,
            >(e.kind()) && e is InvalidSyntax,
        },
{
    match extract_next_word(s) {
        None => Ok(None),
        Some(word) => {
            if str_eq(word.as_str(), "WHERE") {
                match extract_and_parse_where_clause(s) {
                    Ok(c) => Ok(Some(c)),
                    Err(e) => Err(e),
                }
            } else if str_eq(word.as_str(), ";") {
                Ok(None)
            } else {
                Err(
                    ErrorType::InvalidSyntax(
                        String::from_str("Expected WHERE or end of query, found something else"),
                    ),
                )
            }
        },
    }
}

/// What follows a validated `INSERT` column list: the literal
/// `VALUES`, its parenthesized list, and — when a column list was
/// given — the demand that both lists have the same length.
pub open spec fn spec_insert_after_headers(
    tables: Seq<Seq<char>>,
    headers: Seq<Seq<char>>,
    s: Seq<char>,
) -> Result<(CommandsView, Seq<char>), ErrorKind> {
    match spec_next_word(s) {
        Some(q) => if q.0 == "VALUES"@ {
            match spec_between_parens(q.1) {
                Some(v) => if headers.len() > 0 && headers.len() != v.0.len() {
                    Err(ErrorKind::Column)
                } else {
                    Ok((CommandsView::Insert { tables, headers, values: v.0 }, v.1))
                },
                None => Err(ErrorKind::Syntax),
            }
        } else {
            Err(ErrorKind::Syntax)
        },
        None => Err(ErrorKind::Syntax),
    }
}

/// An `INSERT` statement after its verb: `INTO`, the table list, an
/// optional parenthesized column list, `VALUES` and the value list.
pub open spec fn spec_insert_parser(s: Seq<char>) -> Result<(CommandsView, Seq<char>), ErrorKind> {
    match spec_next_word(s) {
        Some(p) => if p.0 == "INTO"@ {
            match spec_table_names(p.1) {
                Some(t) => {
                    let j = first_non_space_from(t.1, 0);
                    if 0 <= j < t.1.len() && t.1[j] == '(' {
                        match spec_between_parens(t.1) {
                            Some(b) => spec_insert_after_headers(t.0, b.0, b.1),
                            None => Err(ErrorKind::Syntax),
                        }
                    } else {
                        spec_insert_after_headers(t.0, Seq::empty(), t.1)
                    }
                },
                None => Err(ErrorKind::Syntax),
            }
        } else {
            Err(ErrorKind::Syntax)
        },
        None => Err(ErrorKind::Syntax),
    }
}

/// Parses an `INSERT` statement after its verb.
#[verifier::rlimit(50)]
pub fn insert_parser(query: &mut String) -> (r: Result<Commands, ErrorType>)
    ensures
        match r {
            Ok(c) => spec_insert_parser(old(query)@) == Ok::<_, ErrorKind>((c@, final(query)@)),
            Err(e) => spec_insert_parser(old(query)@) == Err::<
                (CommandsView, Seq<char>),
                ErrorKind,
            >(e.kind()),
        },
{
    match expected_next_word(query, "INTO") {
        Ok(()) => {},
        Err(e) => {
            return Err(e);
        },
    }
    let tables = match extract_table_names(query) {
        Ok(v) => v,
        Err(e) => {
            return Err(e);
        },
    };
    proof {
        crate::scan::lemma_first_non_space_from(query@, 0);
    }
    let headers: Vec<String> = match get_next_char(query.as_str()) {
        Some(c) if c == '(' => {
            match extract_between_parenthesis(query) {
                Ok(v) => v,
                Err(e) => {
                    return Err(e);
                },
            }
        },
        _ => {
            let empty: Vec<String> = Vec::new();
            proof {
                assert(empty.deep_view() =~= Seq::<Seq<char>>::empty());
            }
            empty
        },
    };
    match expected_next_word(query, "VALUES") {
        Ok(()) => {},
        Err(e) => {
            return Err(e);
        },
    }
    let values = match extract_between_parenthesis(query) {
        Ok(v) => v,
        Err(e) => {
            return Err(e);
        },
    };
    if headers.len() > 0 && headers.len() != values.len() {
        return Err(
            ErrorType::InvalidColumn(String::from_str("Number of headers and values must match")),
        );
    }
    Ok(Commands::Insert { tables, headers, values })
}

/// An `UPDATE` statement after its verb: the table list, `SET`, the
/// assignment list, and an optional `WHERE` tail.
pub open spec fn spec_update_parser(s: Seq<char>) -> Result<(CommandsView, Seq<char>), ErrorKind> {
    match spec_table_names(s) {
        Some(t) => match spec_next_word(t.1) {
            Some(p) => if p.0 == "SET"@ {
                match spec_updates(p.1) {
                    Some(u) => match spec_where_tail(u.1) {
                        Ok(wt) => Ok(
                            (
                                CommandsView::Update {
                                    tables: t.0,
                                    updates: u.0,
                                    where_st: wt.0,
                                },
                                wt.1,
                            ),
                        ),
                        Err(k) => Err(k),
                    },
                    None => Err(ErrorKind::Syntax),
                }
            } else {
                Err(ErrorKind::Syntax)
            },
            None => Err(ErrorKind::Syntax),
        },
        None => Err(ErrorKind::Syntax),
    }
}

/// Parses an `UPDATE` statement after its verb.
pub fn update_parser(query: &mut String) -> (r: Result<Commands, ErrorType>)
    ensures
        match r {
            Ok(c) => spec_update_parser(old(query)@) == Ok::<_, ErrorKind>((c@, final(query)@)),
            Err(e) => spec_update_parser(old(query)@) == Err::<
                (CommandsView, Seq<char>),
                ErrorKind,
            >(e.kind()),
        },
{
    let tables = match extract_table_names(query) {
        Ok(v) => v,
        Err(e) => {
            return Err(e);
        },
    };
    match expected_next_word(query, "SET") {
        Ok(()) => {},
        Err(e) => {
            return Err(e);
        },
    }
    let updates = match extract_updates(query) {
        Ok(m) => m,
        Err(e) => {
            return Err(e);
        },
    };
    let where_st = match where_tail(query) {
        Ok(w) => w,
        Err(e) => {
            return Err(e);
        },
    };
    Ok(Commands::Update { tables, updates, where_st })
}

/// A `DELETE` statement after its verb: `FROM`, the table list, and
/// an optional `WHERE` tail.
pub open spec fn spec_delete_parser(s: Seq<char>) -> Result<(CommandsView, Seq<char>), ErrorKind> {
    match spec_next_word(s) {
        Some(p) => if p.0 == "FROM"@ {
            match spec_table_names(p.1) {
                Some(t) => match spec_where_tail(t.1) {
                    Ok(wt) => Ok(
                        (CommandsView::Delete { tables: t.0, where_st: wt.0 }, wt.1),
                    ),
                    Err(k) => Err(k),
                },
                None => Err(ErrorKind::Syntax),
            }
        } else {
            Err(ErrorKind::Syntax)
        },
        None => Err(ErrorKind::Syntax),
    }
}

/// Parses a `DELETE` statement after its verb.
pub fn delete_parser(query: &mut String) -> (r: Result<Commands, ErrorType>)
    ensures
        match r {
            Ok(c) => spec_delete_parser(old(query)@) == Ok::<_, ErrorKind>((c@, final(query)@)),
            Err(e) => spec_delete_parser(old(query)@) == Err::<
                (CommandsView, Seq<char>),
                ErrorKind,
            >(e.kind()),
        },
{
    match expected_next_word(query, "FROM") {
        Ok(()) => {},
        Err(e) => {
            return Err(e);
        },
    }
    let tables = match extract_table_names(query) {
        Ok(v) => v,
        Err(e) => {
            return Err(e);
        },
    };
    let where_st = match where_tail(query) {
        Ok(w) => w,
        Err(e) => {
            return Err(e);
        },
    };
    Ok(Commands::Delete { tables, where_st })
}

/// Every sort key of a parsed `ORDER` clause consumes input.
pub proof fn lemma_order_items_progress(s: Seq<char>)
    ensures
        spec_order_items(s) matches Some(t) ==> t.1.len() <= s.len() && (t.0.len() > 0 ==> t.1.len()
            < s.len()),
    decreases s.len(),
{
    match spec_next_word(s) {
        None => {},
        Some(p) => {
            if p.0 == ";"@ {
            } else {
                let dirres = match spec_next_word(p.1) {
                    None => Some((crate::order::Direction::Ascending, p.1)),
                    Some(q) => if q.0 == "ASC"@ {
                        Some((crate::order::Direction::Ascending, q.1))
                    } else if q.0 == "DESC"@ {
                        Some((crate::order::Direction::Descending, q.1))
                    } else if q.0 == ";"@ {
                        Some((crate::order::Direction::Ascending, p.1))
                    } else {
                        None
                    },
                };
                match dirres {
                    None => {},
                    Some(dr) => {
                        if dr.1.len() < s.len() {
                            lemma_order_items_progress(dr.1);
                        }
                    },
                }
            }
        },
    }
}

/// A whole parsed `ORDER` clause consumes input.
pub proof fn lemma_order_clause_progress(s: Seq<char>)
    ensures
        spec_order_clause(s) matches Some(t) ==> t.1.len() < s.len(),
{
    lemma_next_word_progress(s);
    match spec_next_word(s) {
        None => {},
        Some(p) => {
            lemma_order_items_progress(p.1);
        },
    }
}

/// The clause tail of a `SELECT`: any number of `WHERE` and `ORDER`
/// clauses (a later one replacing an earlier one of the same kind)
/// up to the terminator or the end; any other token is a syntax
/// error.
pub open spec fn spec_select_tail(
    w: Option<ConditionView>,
    o: Option<Seq<OrderByView>>,
    s: Seq<char>,
) -> Result<(Option<ConditionView>, Option<Seq<OrderByView>>, Seq<char>), ErrorKind>
    decreases s.len(),
{
    match spec_next_word(s) {
        None => Ok((w, o, s)),
        Some(p) => if p.0 == ";"@ {
            Ok((w, o, p.1))
        } else if p.0 == "WHERE"@ {
            match spec_parse_or(p.1) {
                Some(c) => if c.1.len() < s.len() {
                    spec_select_tail(Some(c.0), o, c.1)
                } else {
                    Err(ErrorKind::Syntax)
                },
                None => Err(ErrorKind::Syntax),
            }
        } else if p.0 == "ORDER"@ {
            match spec_order_clause(p.1) {
                Some(t) => if t.1.len() < s.len() {
                    spec_select_tail(w, Some(t.0), t.1)
                } else {
                    Err(ErrorKind::Syntax)
                },
                None => Err(ErrorKind::Syntax),
            }
        } else {
            Err(ErrorKind::Syntax)
        },
    }
}

fn select_tail(w: Option<Condition>, o: Option<Vec<OrderBy>>, s: &mut String) -> (r: Result<
    (Option<Condition>, Option<Vec<OrderBy>>),
    ErrorType,
>)
    ensures
        match r {
            Ok(pr) => spec_select_tail(cond_opt_view(&w), order_opt_view(&o), old(s)@) == Ok::<
                _,
                ErrorKind,
            >((cond_opt_view(&pr.0), order_opt_view(&pr.1), final(s)@)),
            Err(e) => spec_select_tail(cond_opt_view(&w), order_opt_view(&o), old(s)@) == Err::<
                (Option<ConditionView>, Option<Seq<OrderByView>>, Seq<char>),
                ErrorKind,
            >(e.kind()),
        },
    decreases s@.len(),
{
    let ghost s0 = s@;
    match extract_next_word(s) {
        None => Ok((w, o)),
        Some(word) => {
            if str_eq(word.as_str(), ";") {
                Ok((w, o))
            } else if str_eq(word.as_str(), "WHERE") {
                proof {
                    lemma_next_word_progress(s0);
                }
                let cond = match extract_and_parse_where_clause(s) {
                    Ok(c) => c,
                    Err(e) => {
                        return Err(e);
                    },
                };
                select_tail(Some(cond), o, s)
            } else if str_eq(word.as_str(), "ORDER") {
                proof {
                    lemma_next_word_progress(s0);
                }
                let ghost s1 = s@;
                let ord = match extract_and_parse_order_clause(s) {
                    Ok(v) => v,
                    Err(e) => {
                        return Err(e);
                    },
                };
                proof {
                    lemma_order_clause_progress(s1);
                }
                select_tail(w, Some(ord), s)
            } else {
                Err(
                    ErrorType::InvalidSyntax(
                        String::from_str("Expected 'WHERE', 'ORDER BY', or end of query"),
                    ),
                )
            }
        },
    }
}

/// A `SELECT` statement after its verb: the requested column list,
/// `FROM`, the table list, and the clause tail.
pub open spec fn spec_select_parser(s: Seq<char>) -> Result<(CommandsView, Seq<char>), ErrorKind> {
    match spec_select_headers(s) {
        Some(h) => match spec_next_word(h.1) {
            Some(p) => if p.0 == "FROM"@ {
                match spec_table_names(p.1) {
                    Some(t) => match spec_select_tail(
                        None::<ConditionView>,
                        None::<Seq<OrderByView>>,
                        t.1,
                    ) {
                        Ok(st) => Ok(
                            (
                                CommandsView::Select {
                                    headers: h.0,
                                    tables: t.0,
                                    where_st: st.0,
                                    order: st.1,
                                },
                                st.2,
                            ),
                        ),
                        Err(k) => Err(k),
                    },
                    None => Err(ErrorKind::Syntax),
                }
            } else {
                Err(ErrorKind::Syntax)
            },
            None => Err(ErrorKind::Syntax),
        },
        None => Err(ErrorKind::Syntax),
    }
}

/// Parses a `SELECT` statement after its verb.
pub fn select_parser(query: &mut String) -> (r: Result<Commands, ErrorType>)
    ensures
        match r {
            Ok(c) => spec_select_parser(old(query)@) == Ok::<_, ErrorKind>((c@, final(query)@)),
            Err(e) => spec_select_parser(old(query)@) == Err::<
                (CommandsView, Seq<char>),
                ErrorKind,
            >(e.kind()),
        },
{
    let headers = match extract_select_headers(query) {
        Ok(v) => v,
        Err(e) => {
            return Err(e);
        },
    };
    match expected_next_word(query, "FROM") {
        Ok(()) => {},
        Err(e) => {
            return Err(e);
        },
    }
    let tables = match extract_table_names(query) {
        Ok(v) => v,
        Err(e) => {
            return Err(e);
        },
    };
    let (where_st, order) = match select_tail(None, None, query) {
        Ok(pr) => pr,
        Err(e) => {
            return Err(e);
        },
    };
    Ok(Commands::Select { headers, tables, where_st, order })
}

/// A whole statement: the terminator is appended when missing, the
/// verb is recognized case-insensitively, and the matching verb
/// parser consumes the rest.
pub open spec fn spec_parse_query(s: Seq<char>) -> Result<(CommandsView, Seq<char>), ErrorKind> {
    let t = spec_terminated(s);
    match spec_next_word(t) {
        None => Err(ErrorKind::Syntax),
        Some(p) => if ci_eq(p.0, "INSERT"@) {
            spec_insert_parser(p.1)
        } else if ci_eq(p.0, "UPDATE"@) {
            spec_update_parser(p.1)
        } else if ci_eq(p.0, "DELETE"@) {
            spec_delete_parser(p.1)
        } else if ci_eq(p.0, "SELECT"@) {
            spec_select_parser(p.1)
        } else {
            Err(ErrorKind::Syntax)
        },
    }
}

/// Parses one statement into a command, appending the terminator
/// when the query lacks one.
pub fn parse_query(query: &mut String) -> (r: Result<Commands, ErrorType>)
    ensures
        match r {
            Ok(c) => spec_parse_query(old(query)@) == Ok::<_, ErrorKind>((c@, final(query)@)),
            Err(e) => spec_parse_query(old(query)@) == Err::<
                (CommandsView, Seq<char>),
                ErrorKind,
            >(e.kind()),
        },
{
    let ghost s0 = query@;
    let n = query.as_str().unicode_len();
    let mut b = n;
    while b > 0 && query.as_str().get_char(b - 1) == ' '
        invariant
            0 <= b <= n,
            n == query@.len(),
            query@ == s0,
            last_non_space_to(query@, n as int) == last_non_space_to(query@, b as int),
        decreases b,
    {
        b = b - 1;
    }
    proof {
        assert(last_non_space_to(s0, b as int) == b);
    }
    if !(b > 0 && query.as_str().get_char(b - 1) == ';') {
        query.append(";");
    }
    proof {
        assert(query@ == spec_terminated(s0));
    }
    let command = match extract_next_word(query) {
        Some(w) => w,
        None => {
            return Err(ErrorType::InvalidSyntax(String::from_str("No command found")));
        },
    };
    match Commands::from_str(command.as_str()) {
        Ok(c) => match c {
            Commands::Insert { .. } => insert_parser(query),
            Commands::Update { .. } => update_parser(query),
            Commands::Delete { .. } => delete_parser(query),
            Commands::Select { .. } => select_parser(query),
        },
        Err(e) => Err(e),
    }
}

} // verus!
