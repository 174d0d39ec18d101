//! The parsed form of a statement: one variant per verb.

use vstd::prelude::*;

use crate::condition::{Condition, ConditionView};
use crate::errors::ErrorType;
use crate::order::{OrderBy, OrderByView};
use crate::value_map::ValueMap;

verus! {

/// A parsed statement. Every command carries the list of target
/// tables it applies to; the list is never empty once parsing
/// succeeds.
pub enum Commands {
    Insert { tables: Vec<String>, headers: Vec<String>, values: Vec<String> },
    Update { tables: Vec<String>, updates: ValueMap, where_st: Option<Condition> },
    Delete { tables: Vec<String>, where_st: Option<Condition> },
    Select {
        headers: Vec<String>,
        tables: Vec<String>,
        where_st: Option<Condition>,
        order: Option<Vec<OrderBy>>,
    },
}

/// Mathematical image of a parsed statement.
pub enum CommandsView {
    Insert { tables: Seq<Seq<char>>, headers: Seq<Seq<char>>, values: Seq<Seq<char>> },
    Update {
        tables: Seq<Seq<char>>,
        updates: Map<Seq<char>, Seq<char>>,
        where_st: Option<ConditionView>,
    },
    Delete { tables: Seq<Seq<char>>, where_st: Option<ConditionView> },
    Select {
        headers: Seq<Seq<char>>,
        tables: Seq<Seq<char>>,
        where_st: Option<ConditionView>,
        order: Option<Seq<OrderByView>>,
    },
}

pub open spec fn cond_opt_view(c: &Option<Condition>) -> Option<ConditionView> {
    match c {
        Some(cc) => Some(cc@),
        None => None,
    }
}

pub open spec fn order_opt_view(o: &Option<Vec<OrderBy>>) -> Option<Seq<OrderByView>> {
    match o {
        Some(v) => Some(v.deep_view()),
        None => None,
    }
}

impl View for Commands {
    type V = CommandsView;

    open spec fn view(&self) -> CommandsView {
        match self {
            Commands::Insert { tables, headers, values } => CommandsView::Insert {
                tables: tables.deep_view(),
                headers: headers.deep_view(),
                values: values.deep_view(),
            },
            Commands::Update { tables, updates, where_st } => CommandsView::Update {
                tables: tables.deep_view(),
                updates: updates@,
                where_st: cond_opt_view(where_st),
            },
            Commands::Delete { tables, where_st } => CommandsView::Delete {
                tables: tables.deep_view(),
                where_st: cond_opt_view(where_st),
            },
            Commands::Select { headers, tables, where_st, order } => CommandsView::Select {
                headers: headers.deep_view(),
                tables: tables.deep_view(),
                where_st: cond_opt_view(where_st),
                order: order_opt_view(order),
            },
        }
    }
}

/// Case-insensitive match of one character against an upper-case
/// keyword character.
pub open spec fn ci_char_eq(a: char, k: char) -> bool {
    a == k || ('a' as int <= a as int <= 'z' as int && a as int - 32 == k as int)
}

/// Case-insensitive match of a token against an upper-case keyword.
pub open spec fn ci_eq(s: Seq<char>, kw: Seq<char>) -> bool {
    s.len() == kw.len() && forall|i: int| 0 <= i < s.len() ==> ci_char_eq(#[trigger] s[i], kw[i])
}

/// Compares a token against an upper-case keyword, ignoring the case
/// of ASCII letters in the token.
pub fn keyword_ci(w: &str, kw: &str) -> (r: bool)
    ensures
        r == ci_eq(w@, kw@),
{
    let nw = w.unicode_len();
    let nk = kw.unicode_len();
    if nw != nk {
        return false;
    }
    let mut i: usize = 0;
    while i < nw
        invariant
            0 <= i <= nw,
            nw == w@.len(),
            nw == kw@.len(),
            forall|j: int| 0 <= j < i ==> ci_char_eq(#[trigger] w@[j], kw@[j]),
        decreases nw - i,
    {
        let a = w.get_char(i);
        let k = kw.get_char(i);
        let ok = a == k || ('a' <= a && a <= 'z' && (a as u32) - 32 == (k as u32));
        if !ok {
            return false;
        }
        i = i + 1;
    }
    true
}

impl Commands {
    /// Recognizes the statement's verb, ignoring ASCII case, and
    /// returns the corresponding empty command; any other word is a
    /// syntax error.
    pub fn from_str(s: &str) -> (r: Result<Commands, ErrorType>)
        ensures
            match r {
                Ok(c) => {
                    &&& (c is Insert ==> ci_eq(s@, "INSERT"@))
                    &&& (c is Update ==> ci_eq(s@, "UPDATE"@) && !ci_eq(s@, "INSERT"@))
                    &&& (c is Delete ==> ci_eq(s@, "DELETE"@) && !ci_eq(s@, "INSERT"@) && !ci_eq(
                        s@,
                        "UPDATE"@,
                    ))
                    &&& (c is Select ==> ci_eq(s@, "SELECT"@) && !ci_eq(s@, "INSERT"@) && !ci_eq(
                        s@,
                        "UPDATE"@,
                    ) && !ci_eq(s@, "DELETE"@))
                },
                Err(e) => {
                    &&& !ci_eq(s@, "INSERT"@)
                    &&& !ci_eq(s@, "UPDATE"@)
                    &&& !ci_eq(s@, "DELETE"@)
                    &&& !ci_eq(s@, "SELECT"@)
                    &&& e is InvalidSyntax
                },
            },
    {
        if keyword_ci(s, "INSERT") {
            Ok(
                Commands::Insert {
                    tables: Vec::new(),
                    headers: Vec::new(),
                    values: Vec::new(),
                },
            )
        } else if keyword_ci(s, "UPDATE") {
            Ok(
                Commands::Update {
                    tables: Vec::new(),
                    updates: ValueMap::new(),
                    where_st: None,
                },
            )
        } else if keyword_ci(s, "DELETE") {
            Ok(Commands::Delete { tables: Vec::new(), where_st: None })
        } else if keyword_ci(s, "SELECT") {
            Ok(
                Commands::Select {
                    headers: Vec::new(),
                    tables: Vec::new(),
                    where_st: None,
                    order: None,
                },
            )
        } else {
            Err(
                ErrorType::InvalidSyntax(
                    String::from_str(
                        "The Query Command doesn't match any of the available options",
                    ),
                ),
            )
        }
    }
}

} // verus!
