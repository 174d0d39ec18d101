//! Engine-wide laws, each proved from the executor's specifications.

use vstd::prelude::*;

use crate::command_types::{ci_char_eq, ci_eq, CommandsView};
use crate::commands::{
    first_index_of, last_index_of, lemma_last_index_of, rows_sorted_by_v, spec_delete_lines,
    spec_insert_fields, spec_insert_table, spec_place_values, spec_row_cmp, spec_update_lines,
    val_flip,
};
use crate::compare::{val_cmp, ValOrder};
use crate::condition::{ComparisonOp, ConditionView};
use crate::errors::ErrorKind;
use crate::extract_query::{
    lemma_between_parens_single, lemma_next_word_eq_op, lemma_next_word_leading_space_semi,
    lemma_next_word_one_leading_space, lemma_next_word_space_sep, lemma_select_headers_single,
    lemma_table_names_single, lemma_table_names_single_sep, lemma_updates_single, plain_token,
    spec_between_parens, spec_next_word, spec_op_of, spec_parse_and, spec_parse_cmp,
    spec_parse_not, spec_parse_or, spec_select_headers, spec_table_names, spec_updates,
};
use crate::order::{Direction, OrderByView};
use crate::parser::{
    spec_parse_query, spec_select_tail, spec_terminated, spec_where_tail,
};
use crate::scan::{first_non_space_from, trim_spaces};
use crate::table::TableView;

verus! {

/// In a header without duplicate names, every column's last position
/// is its only position.
proof fn lemma_last_index_unique(th: Seq<Seq<char>>, j: int)
    requires
        forall|a: int, b: int| 0 <= a < b < th.len() ==> th[a] != th[b],
        0 <= j < th.len(),
    ensures
        last_index_of(th, th[j]) == Some(j),
{
    lemma_last_index_of(th, th[j]);
    match last_index_of(th, th[j]) {
        Some(i) => {
            if i < j {
                assert(th[i] == th[j]);
                assert(false);
            }
            if i > j {
                assert(th[i] == th[j]);
                assert(false);
            }
        },
        None => {
            assert(th[j] == th[j]);
            assert(false);
        },
    }
}

proof fn lemma_place_values_full(th: Seq<Seq<char>>, values: Seq<Seq<char>>, k: int)
    requires
        forall|a: int, b: int| 0 <= a < b < th.len() ==> th[a] != th[b],
        values.len() == th.len(),
        0 <= k <= th.len(),
    ensures
        spec_place_values(th, values, th, k) == Ok::<Seq<Seq<char>>, ErrorKind>(
            Seq::new(
                th.len(),
                |i: int|
                    if 0 <= i < k {
                        values[i]
                    } else {
                        Seq::<char>::empty()
                    },
            ),
        ),
    decreases k,
{
    if k == 0 {
        assert(spec_place_values(th, values, th, 0) == Ok::<Seq<Seq<char>>, ErrorKind>(
            Seq::new(th.len(), |i: int| Seq::<char>::empty()),
        ));
        assert(Seq::new(th.len(), |i: int| Seq::<char>::empty()) =~= Seq::new(
            th.len(),
            |i: int|
                if 0 <= i < 0 {
                    values[i]
                } else {
                    Seq::<char>::empty()
                },
        ));
    } else {
        lemma_place_values_full(th, values, k - 1);
        lemma_last_index_unique(th, k - 1);
        let prev = Seq::new(
            th.len(),
            |i: int|
                if 0 <= i < k - 1 {
                    values[i]
                } else {
                    Seq::<char>::empty()
                },
        );
        assert(prev.update(k - 1, values[k - 1]) =~= Seq::new(
            th.len(),
            |i: int|
                if 0 <= i < k {
                    values[i]
                } else {
                    Seq::<char>::empty()
                },
        ));
    }
}

/// Inserting with an explicit column list that names the whole
/// header, in order, builds exactly the row that positional insertion
/// of the same values builds.
pub proof fn lemma_insert_explicit_matches_positional(th: Seq<Seq<char>>, values: Seq<Seq<char>>)
    requires
        forall|a: int, b: int| 0 <= a < b < th.len() ==> th[a] != th[b],
        values.len() == th.len(),
        th.len() > 0,
    ensures
        spec_insert_fields(th, values, th) == spec_insert_fields(
            Seq::<Seq<char>>::empty(),
            values,
            th,
        ),
{
    lemma_place_values_full(th, values, th.len() as int);
    assert(Seq::new(
        th.len(),
        |i: int|
            if 0 <= i < th.len() {
                values[i]
            } else {
                Seq::<char>::empty()
            },
    ) =~= Seq::new(
        th.len(),
        |i: int|
            if 0 <= i < values.len() {
                values[i]
            } else {
                Seq::<char>::empty()
            },
    ));
}

/// Bringing more values than the table has columns always fails with
/// a column error, whatever the values hold.
pub proof fn lemma_insert_too_many_values(
    tv: TableView,
    headers: Seq<Seq<char>>,
    values: Seq<Seq<char>>,
)
    requires
        values.len() > tv.header.len(),
    ensures
        spec_insert_table(tv, headers, values) == Err::<TableView, ErrorKind>(ErrorKind::Column),
{
}

/// A `DELETE` with no filter behaves exactly like one whose filter
/// accepts every row: every row is removed.
pub proof fn lemma_delete_no_filter_is_always_true(
    th: Seq<Seq<char>>,
    lines: Seq<Seq<char>>,
    cv: ConditionView,
)
    requires
        forall|row: Map<Seq<char>, Seq<char>>| crate::condition::spec_eval(cv, row),
    ensures
        spec_delete_lines(th, lines, None::<ConditionView>) == spec_delete_lines(
            th,
            lines,
            Some(cv),
        ),
        spec_delete_lines(th, lines, None::<ConditionView>) == Seq::<Seq<char>>::empty(),
    decreases lines.len(),
{
    if lines.len() > 0 {
        lemma_delete_no_filter_is_always_true(th, lines.drop_last(), cv);
    }
}

/// An `UPDATE` with no filter behaves exactly like one whose filter
/// accepts every row: every row is rewritten.
pub proof fn lemma_update_no_filter_is_always_true(
    th: Seq<Seq<char>>,
    lines: Seq<Seq<char>>,
    updates: Map<Seq<char>, Seq<char>>,
    cv: ConditionView,
)
    requires
        forall|row: Map<Seq<char>, Seq<char>>| crate::condition::spec_eval(cv, row),
    ensures
        spec_update_lines(th, lines, updates, None::<ConditionView>) == spec_update_lines(
            th,
            lines,
            updates,
            Some(cv),
        ),
{
    assert(spec_update_lines(th, lines, updates, None::<ConditionView>) =~= spec_update_lines(
        th,
        lines,
        updates,
        Some(cv),
    ));
}

/// When the filter matches no row, a `DELETE` or `UPDATE` leaves
/// every trimmed line exactly as it was.
pub proof fn lemma_no_match_leaves_table(
    th: Seq<Seq<char>>,
    lines: Seq<Seq<char>>,
    updates: Map<Seq<char>, Seq<char>>,
    cv: ConditionView,
)
    requires
        forall|i: int|
            0 <= i < lines.len() ==> !crate::condition::spec_eval(
                cv,
                #[trigger] crate::commands::spec_row_map(th, lines[i]),
            ),
        forall|i: int| 0 <= i < lines.len() ==> trim_spaces(#[trigger] lines[i]) == lines[i],
    ensures
        spec_delete_lines(th, lines, Some(cv)) == lines,
        spec_update_lines(th, lines, updates, Some(cv)) == lines,
    decreases lines.len(),
{
    assert(spec_update_lines(th, lines, updates, Some(cv)) =~= lines);
    if lines.len() == 0 {
        assert(spec_delete_lines(th, lines, Some(cv)) =~= lines);
    } else {
        lemma_no_match_leaves_table(th, lines.drop_last(), updates, cv);
        assert(forall|i: int|
            0 <= i < lines.drop_last().len() ==> #[trigger] lines.drop_last()[i] == lines[i]);
        assert(spec_delete_lines(th, lines, Some(cv)) =~= lines.drop_last() + seq![
            trim_spaces(lines.last()),
        ]);
        assert(lines.drop_last() + seq![lines.last()] =~= lines);
    }
}

/// In a block sorted by `k1` ascending then `k2` descending, every
/// adjacent pair is non-decreasing in `k1`, and non-increasing in
/// `k2` where `k1` ties.
#[verifier::rlimit(80)]
pub proof fn lemma_two_key_order(
    rs: Seq<Seq<Seq<char>>>,
    k1: Seq<char>,
    k2: Seq<char>,
    headers: Seq<Seq<char>>,
    i1: int,
    i2: int,
)
    requires
        rows_sorted_by_v(
            rs,
            seq![
                OrderByView { column: k1, direction: Direction::Ascending },
                OrderByView { column: k2, direction: Direction::Descending },
            ],
            headers,
        ),
        first_index_of(headers, k1) == Some(i1),
        first_index_of(headers, k2) == Some(i2),
        forall|k: int| 0 <= k < rs.len() ==> (#[trigger] rs[k]).len() > i1 && rs[k].len() > i2,
        0 <= i1,
        0 <= i2,
    ensures
        forall|k: int|
            0 <= k < rs.len() - 1 ==> val_cmp(#[trigger] rs[k][i1], rs[k + 1][i1])
                != ValOrder::Greater,
        forall|k: int|
            0 <= k < rs.len() - 1 && val_cmp(#[trigger] rs[k][i1], rs[k + 1][i1])
                == ValOrder::Equal ==> val_cmp(rs[k][i2], rs[k + 1][i2]) != ValOrder::Less,
{
    let crits = seq![
        OrderByView { column: k1, direction: Direction::Ascending },
        OrderByView { column: k2, direction: Direction::Descending },
    ];
    assert forall|k: int| 0 <= k < rs.len() - 1 implies val_cmp(#[trigger] rs[k][i1], rs[k + 1][i1])
        != ValOrder::Greater && (val_cmp(rs[k][i1], rs[k + 1][i1]) == ValOrder::Equal ==> val_cmp(
        rs[k][i2],
        rs[k + 1][i2],
    ) != ValOrder::Less) by {
        let a = rs[k];
        let b = rs[k + 1];
        assert(spec_row_cmp(a, b, crits, headers) != ValOrder::Greater);
        assert(crits[0] == OrderByView { column: k1, direction: Direction::Ascending });
        assert(crits.skip(1) =~= seq![
            OrderByView { column: k2, direction: Direction::Descending },
        ]);
        assert(crits.skip(1)[0] == OrderByView { column: k2, direction: Direction::Descending });
        assert(crits.skip(1).skip(1) =~= Seq::<OrderByView>::empty());
        let o1 = val_cmp(a[i1], b[i1]);
        if o1 == ValOrder::Greater {
            assert(spec_row_cmp(a, b, crits, headers) == ValOrder::Greater);
        }
        if o1 == ValOrder::Equal {
            let o2 = val_cmp(a[i2], b[i2]);
            assert(spec_row_cmp(a, b, crits, headers) == spec_row_cmp(
                a,
                b,
                crits.skip(1),
                headers,
            ));
            if o2 == ValOrder::Less {
                assert(val_flip(o2) == ValOrder::Greater);
                assert(spec_row_cmp(a, b, crits.skip(1), headers) == ValOrder::Greater);
            }
        }
    }
}

/// Parsing the serialized form of a filterless `DELETE` gives back
/// exactly the command it was written from, whatever plain name its
/// table has: reading a statement is stable under reserialization.
pub proof fn lemma_reparse_delete(t: Seq<char>)
    requires
        plain_token(t),
    ensures
        spec_parse_query("DELETE"@ + " "@ + "FROM"@ + " "@ + t + ";"@) == Ok::<
            (CommandsView, Seq<char>),
            ErrorKind,
        >((CommandsView::Delete { tables: seq![t], where_st: None }, Seq::<char>::empty())),
{
    reveal_strlit("DELETE");
    reveal_strlit("FROM");
    reveal_strlit(" ");
    reveal_strlit(";");
    reveal_strlit("INSERT");
    reveal_strlit("UPDATE");
    reveal_strlit("WHERE");
    let text = "DELETE"@ + " "@ + "FROM"@ + " "@ + t + ";"@;
    let rest1 = "FROM"@ + " "@ + t + ";"@;
    let rest2 = t + ";"@;

    // the statement already ends in its terminator
    assert(text[text.len() - 1] == ';');
    assert(spec_terminated(text) == text);

    // the verb token
    assert(plain_token("DELETE"@));
    lemma_next_word_space_sep("DELETE"@, rest1);
    assert(text =~= "DELETE"@ + " "@ + rest1);
    assert(spec_next_word(text) == Some(("DELETE"@, rest1)));

    // the verb is DELETE and no other
    assert(!ci_char_eq("DELETE"@[0], "INSERT"@[0]));
    assert(!ci_eq("DELETE"@, "INSERT"@));
    assert(!ci_char_eq("DELETE"@[0], "UPDATE"@[0]));
    assert(!ci_eq("DELETE"@, "UPDATE"@));
    assert(ci_eq("DELETE"@, "DELETE"@)) by {
        assert(forall|i: int|
            0 <= i < 6 ==> ci_char_eq(#[trigger] ("DELETE"@)[i], ("DELETE"@)[i]));
    }

    // FROM, then the table list, then the bare terminator
    assert(plain_token("FROM"@));
    lemma_next_word_space_sep("FROM"@, rest2);
    assert(rest1 =~= "FROM"@ + " "@ + rest2);
    assert(spec_next_word(rest1) == Some(("FROM"@, rest2)));
    lemma_table_names_single(t);
    assert((";"@).len() == 1);
    assert((";"@)[0] == ';');
    assert(first_non_space_from(";"@, 0) == 0);
    assert((";"@).skip(1) =~= Seq::<char>::empty());
    assert(spec_next_word(";"@) == Some((";"@, Seq::<char>::empty())));
    assert((";"@) != ("WHERE"@));
    assert(spec_where_tail(";"@) == Ok::<(Option<ConditionView>, Seq<char>), ErrorKind>(
        (None, Seq::<char>::empty()),
    ));
}

/// Parsing the serialized form of a positional single-value `INSERT`
/// gives back exactly the command it was written from, whatever
/// plain names its table and value have.
pub proof fn lemma_reparse_insert(t: Seq<char>, v: Seq<char>)
    requires
        plain_token(t),
        plain_token(v),
    ensures
        spec_parse_query(
            "INSERT"@ + " "@ + "INTO"@ + " "@ + t + " "@ + "VALUES"@ + " "@ + "("@ + v + ");"@,
        ) == Ok::<(CommandsView, Seq<char>), ErrorKind>(
            (
                CommandsView::Insert {
                    tables: seq![t],
                    headers: Seq::empty(),
                    values: seq![v],
                },
                ";"@,
            ),
        ),
{
    reveal_strlit("INSERT");
    reveal_strlit("INTO");
    reveal_strlit("VALUES");
    reveal_strlit(" ");
    reveal_strlit(";");
    reveal_strlit("(");
    reveal_strlit(");");
    let text = "INSERT"@ + " "@ + "INTO"@ + " "@ + t + " "@ + "VALUES"@ + " "@ + "("@ + v
        + ");"@;
    let rest1 = "INTO"@ + " "@ + t + " "@ + "VALUES"@ + " "@ + "("@ + v + ");"@;
    let vals = "("@ + v + ");"@;
    let rest2 = t + " "@ + "VALUES"@ + " "@ + vals;
    let rest3 = " "@ + "VALUES"@ + " "@ + vals;

    // the statement already ends in its terminator
    assert(text[text.len() - 1] == ';');
    assert(spec_terminated(text) == text);

    // the verb token, recognized as INSERT
    assert(plain_token("INSERT"@));
    lemma_next_word_space_sep("INSERT"@, rest1);
    assert(text =~= "INSERT"@ + " "@ + rest1);
    assert(spec_next_word(text) == Some(("INSERT"@, rest1)));
    assert(ci_eq("INSERT"@, "INSERT"@)) by {
        assert(forall|i: int|
            0 <= i < 6 ==> ci_char_eq(#[trigger] ("INSERT"@)[i], ("INSERT"@)[i]));
    }

    // INTO, then the table list
    assert(plain_token("INTO"@));
    lemma_next_word_space_sep("INTO"@, rest2);
    assert(rest1 =~= "INTO"@ + " "@ + rest2);
    assert(spec_next_word(rest1) == Some(("INTO"@, rest2)));
    lemma_table_names_single_sep(t, "VALUES"@ + " "@ + vals);
    assert(rest2 =~= t + " "@ + ("VALUES"@ + " "@ + vals));
    assert(" "@ + ("VALUES"@ + " "@ + vals) =~= rest3);
    assert(spec_table_names(rest2) == Some((seq![t], rest3)));

    // no column list: the next character opens nothing
    assert(rest3[0] == ' ');
    assert(rest3[1] == 'V');
    assert(first_non_space_from(rest3, 1) == 1);
    assert(first_non_space_from(rest3, 0) == 1);
    assert(rest3[1] != '(');

    // VALUES and its parenthesized list
    assert(plain_token("VALUES"@));
    lemma_next_word_one_leading_space("VALUES"@, vals);
    assert(rest3 =~= " "@ + "VALUES"@ + " "@ + vals);
    assert(spec_next_word(rest3) == Some(("VALUES"@, vals)));
    lemma_between_parens_single(v);
    assert(spec_between_parens(vals) == Some((seq![v], ";"@)));
    assert(Seq::<Seq<char>>::empty().len() == 0);
}

/// Parsing the serialized form of a bare single-column `SELECT`
/// gives back exactly the command it was written from, whatever
/// plain names its column and table have, as long as the column does
/// not itself spell `FROM`.
pub proof fn lemma_reparse_select(c: Seq<char>, t: Seq<char>)
    requires
        plain_token(c),
        plain_token(t),
        forall|k: int| 0 <= k <= c.len() - 4 ==> #[trigger] c.subrange(k, k + 4) != "FROM"@,
    ensures
        spec_parse_query("SELECT"@ + " "@ + c + " "@ + "FROM"@ + " "@ + t + ";"@) == Ok::<
            (CommandsView, Seq<char>),
            ErrorKind,
        >(
            (
                CommandsView::Select {
                    headers: seq![c],
                    tables: seq![t],
                    where_st: None,
                    order: None,
                },
                Seq::<char>::empty(),
            ),
        ),
{
    reveal_strlit("SELECT");
    reveal_strlit("FROM");
    reveal_strlit(" ");
    reveal_strlit(";");
    reveal_strlit("INSERT");
    reveal_strlit("UPDATE");
    reveal_strlit("DELETE");
    reveal_strlit("WHERE");
    reveal_strlit("ORDER");
    let text = "SELECT"@ + " "@ + c + " "@ + "FROM"@ + " "@ + t + ";"@;
    let rest1 = c + " "@ + "FROM"@ + " "@ + t + ";"@;
    let rest2 = "FROM"@ + " "@ + t + ";"@;
    let rest3 = t + ";"@;

    // the statement already ends in its terminator
    assert(text[text.len() - 1] == ';');
    assert(spec_terminated(text) == text);

    // the verb token, recognized as SELECT and none of the others
    assert(plain_token("SELECT"@));
    lemma_next_word_space_sep("SELECT"@, rest1);
    assert(text =~= "SELECT"@ + " "@ + rest1);
    assert(spec_next_word(text) == Some(("SELECT"@, rest1)));
    assert(!ci_char_eq("SELECT"@[0], "INSERT"@[0]));
    assert(!ci_eq("SELECT"@, "INSERT"@));
    assert(!ci_char_eq("SELECT"@[0], "UPDATE"@[0]));
    assert(!ci_eq("SELECT"@, "UPDATE"@));
    assert(!ci_char_eq("SELECT"@[0], "DELETE"@[0]));
    assert(!ci_eq("SELECT"@, "DELETE"@));
    assert(ci_eq("SELECT"@, "SELECT"@)) by {
        assert(forall|i: int|
            0 <= i < 6 ==> ci_char_eq(#[trigger] ("SELECT"@)[i], ("SELECT"@)[i]));
    }

    // the column list before FROM
    lemma_select_headers_single(c, " "@ + t + ";"@);
    assert(rest1 =~= c + " "@ + "FROM"@ + (" "@ + t + ";"@));
    assert("FROM"@ + (" "@ + t + ";"@) =~= rest2);
    assert(spec_select_headers(rest1) == Some((seq![c], rest2)));

    // FROM, the table list, and the bare terminator
    assert(plain_token("FROM"@));
    lemma_next_word_space_sep("FROM"@, rest3);
    assert(rest2 =~= "FROM"@ + " "@ + rest3);
    assert(spec_next_word(rest2) == Some(("FROM"@, rest3)));
    lemma_table_names_single(t);
    assert((";"@)[0] == ';');
    assert(first_non_space_from(";"@, 0) == 0);
    assert((";"@).skip(1) =~= Seq::<char>::empty());
    assert(spec_next_word(";"@) == Some((";"@, Seq::<char>::empty())));
    assert((";"@) != ("WHERE"@));
    assert((";"@) != ("ORDER"@));
    assert(spec_select_tail(None, None, ";"@) == Ok::<
        (Option<ConditionView>, Option<Seq<OrderByView>>, Seq<char>),
        ErrorKind,
    >((None, None, Seq::<char>::empty())));
}

/// Parsing the serialized form of a filterless single-assignment
/// `UPDATE` gives back exactly the command it was written from,
/// whatever plain names its table, column and value have, as long as
/// neither the column nor the value spells `WHERE`.
pub proof fn lemma_reparse_update(t: Seq<char>, c: Seq<char>, v: Seq<char>)
    requires
        plain_token(t),
        plain_token(c),
        plain_token(v),
        forall|k: int| 0 <= k <= c.len() - 5 ==> #[trigger] c.subrange(k, k + 5) != "WHERE"@,
        forall|k: int| 0 <= k <= v.len() - 5 ==> #[trigger] v.subrange(k, k + 5) != "WHERE"@,
    ensures
        spec_parse_query("UPDATE"@ + " "@ + t + " "@ + "SET"@ + " "@ + c + "="@ + v + ";"@)
            == Ok::<(CommandsView, Seq<char>), ErrorKind>(
            (
                CommandsView::Update {
                    tables: seq![t],
                    updates: Map::<Seq<char>, Seq<char>>::empty().insert(c, v),
                    where_st: None,
                },
                Seq::<char>::empty(),
            ),
        ),
{
    reveal_strlit("UPDATE");
    reveal_strlit("SET");
    reveal_strlit(" ");
    reveal_strlit(";");
    reveal_strlit("=");
    reveal_strlit("INSERT");
    reveal_strlit("WHERE");
    let text = "UPDATE"@ + " "@ + t + " "@ + "SET"@ + " "@ + c + "="@ + v + ";"@;
    let kv = c + "="@ + v + ";"@;
    let rest1 = t + " "@ + "SET"@ + " "@ + kv;
    let rest2 = " "@ + "SET"@ + " "@ + kv;

    // the statement already ends in its terminator
    assert(text[text.len() - 1] == ';');
    assert(spec_terminated(text) == text);

    // the verb token, recognized as UPDATE and not INSERT
    assert(plain_token("UPDATE"@));
    lemma_next_word_space_sep("UPDATE"@, rest1);
    assert(text =~= "UPDATE"@ + " "@ + rest1);
    assert(spec_next_word(text) == Some(("UPDATE"@, rest1)));
    assert(!ci_char_eq("UPDATE"@[0], "INSERT"@[0]));
    assert(!ci_eq("UPDATE"@, "INSERT"@));
    assert(ci_eq("UPDATE"@, "UPDATE"@)) by {
        assert(forall|i: int|
            0 <= i < 6 ==> ci_char_eq(#[trigger] ("UPDATE"@)[i], ("UPDATE"@)[i]));
    }

    // the table list, then SET and the assignment list
    lemma_table_names_single_sep(t, "SET"@ + " "@ + kv);
    assert(rest1 =~= t + " "@ + ("SET"@ + " "@ + kv));
    assert(" "@ + ("SET"@ + " "@ + kv) =~= rest2);
    assert(spec_table_names(rest1) == Some((seq![t], rest2)));
    assert(plain_token("SET"@));
    lemma_next_word_one_leading_space("SET"@, kv);
    assert(rest2 =~= " "@ + "SET"@ + " "@ + kv);
    assert(spec_next_word(rest2) == Some(("SET"@, kv)));
    lemma_updates_single(c, v);
    assert(spec_updates(kv) == Some(
        (Map::<Seq<char>, Seq<char>>::empty().insert(c, v), ";"@),
    ));

    // the bare terminator: no WHERE clause
    assert((";"@)[0] == ';');
    assert(first_non_space_from(";"@, 0) == 0);
    assert((";"@).skip(1) =~= Seq::<char>::empty());
    assert(spec_next_word(";"@) == Some((";"@, Seq::<char>::empty())));
    assert((";"@) != ("WHERE"@));
    assert(spec_where_tail(";"@) == Ok::<(Option<ConditionView>, Seq<char>), ErrorKind>(
        (None, Seq::<char>::empty()),
    ));
}

/// Parsing the serialized form of a `DELETE` filtered by one
/// equality comparison gives back exactly the command it was written
/// from, whatever plain names stand in it — only a column literally
/// named `NOT` or `ORDER` would read as a keyword instead.
#[verifier::rlimit(100)]
pub proof fn lemma_reparse_delete_where(t: Seq<char>, a: Seq<char>, b: Seq<char>)
    requires
        plain_token(t),
        plain_token(a),
        plain_token(b),
        a != "NOT"@,
        a != "ORDER"@,
    ensures
        spec_parse_query(
            "DELETE"@ + " "@ + "FROM"@ + " "@ + t + " "@ + "WHERE"@ + " "@ + a + " "@ + "="@
                + " "@ + b + ";"@,
        ) == Ok::<(CommandsView, Seq<char>), ErrorKind>(
            (
                CommandsView::Delete {
                    tables: seq![t],
                    where_st: Some(
                        ConditionView::Comparison(a, ComparisonOp::Eq, b),
                    ),
                },
                Seq::<char>::empty(),
            ),
        ),
{
    reveal_strlit("DELETE");
    reveal_strlit("FROM");
    reveal_strlit("WHERE");
    reveal_strlit(" ");
    reveal_strlit(";");
    reveal_strlit("=");
    reveal_strlit("INSERT");
    reveal_strlit("UPDATE");
    let cond = a + " "@ + "="@ + " "@ + b + ";"@;
    let text = "DELETE"@ + " "@ + "FROM"@ + " "@ + t + " "@ + "WHERE"@ + " "@ + cond;
    let rest1 = "FROM"@ + " "@ + t + " "@ + "WHERE"@ + " "@ + cond;
    let rest2 = t + " "@ + "WHERE"@ + " "@ + cond;
    let rest3 = " "@ + "WHERE"@ + " "@ + cond;

    // the statement already ends in its terminator
    assert(text =~= "DELETE"@ + " "@ + "FROM"@ + " "@ + t + " "@ + "WHERE"@ + " "@ + a + " "@
        + "="@ + " "@ + b + ";"@);
    assert(text[text.len() - 1] == ';');
    assert(spec_terminated(text) == text);

    // the verb token, recognized as DELETE and no earlier verb
    assert(plain_token("DELETE"@));
    lemma_next_word_space_sep("DELETE"@, rest1);
    assert(text =~= "DELETE"@ + " "@ + rest1);
    assert(spec_next_word(text) == Some(("DELETE"@, rest1)));
    assert(!ci_char_eq("DELETE"@[0], "INSERT"@[0]));
    assert(!ci_eq("DELETE"@, "INSERT"@));
    assert(!ci_char_eq("DELETE"@[0], "UPDATE"@[0]));
    assert(!ci_eq("DELETE"@, "UPDATE"@));
    assert(ci_eq("DELETE"@, "DELETE"@)) by {
        assert(forall|i: int|
            0 <= i < 6 ==> ci_char_eq(#[trigger] ("DELETE"@)[i], ("DELETE"@)[i]));
    }

    // FROM and the table list
    assert(plain_token("FROM"@));
    lemma_next_word_space_sep("FROM"@, rest2);
    assert(rest1 =~= "FROM"@ + " "@ + rest2);
    assert(spec_next_word(rest1) == Some(("FROM"@, rest2)));
    lemma_table_names_single_sep(t, "WHERE"@ + " "@ + cond);
    assert(rest2 =~= t + " "@ + ("WHERE"@ + " "@ + cond));
    assert(" "@ + ("WHERE"@ + " "@ + cond) =~= rest3);
    assert(spec_table_names(rest2) == Some((seq![t], rest3)));

    // WHERE, then the comparison
    assert(plain_token("WHERE"@));
    lemma_next_word_one_leading_space("WHERE"@, cond);
    assert(rest3 =~= " "@ + "WHERE"@ + " "@ + cond);
    assert(spec_next_word(rest3) == Some(("WHERE"@, cond)));

    // the three comparison tokens
    let after_a = "="@ + " "@ + b + ";"@;
    lemma_next_word_space_sep(a, after_a);
    assert(cond =~= a + " "@ + after_a);
    assert(spec_next_word(cond) == Some((a, after_a)));
    lemma_next_word_eq_op(b + ";"@);
    assert(after_a =~= "="@ + " "@ + (b + ";"@));
    assert(spec_next_word(after_a) == Some(("="@, " "@ + (b + ";"@))));
    lemma_next_word_leading_space_semi(b, Seq::<char>::empty());
    assert(" "@ + (b + ";"@) =~= " "@ + b + ";"@ + Seq::<char>::empty());
    assert(spec_next_word(" "@ + (b + ";"@)) == Some((b, Seq::<char>::empty())));
    assert(spec_op_of("="@) == Some(ComparisonOp::Eq));

    // the comparison is the whole condition
    assert(a[0] != '(');
    assert(cond[0] == a[0]);
    assert(first_non_space_from(cond, 0) == 0);
    assert(spec_parse_cmp(cond) == Some(
        (ConditionView::Comparison(a, ComparisonOp::Eq, b), Seq::<char>::empty()),
    ));
    assert(a != ";"@) by {
        if a == ";"@ {
            assert(a[0] == ';');
        }
    }
    assert(spec_parse_not(cond) == Some(
        (ConditionView::Comparison(a, ComparisonOp::Eq, b), Seq::<char>::empty()),
    ));
    assert(spec_next_word(Seq::<char>::empty()) is None);
    assert(spec_parse_and(cond) == Some(
        (ConditionView::Comparison(a, ComparisonOp::Eq, b), Seq::<char>::empty()),
    ));
    assert(spec_parse_or(cond) == Some(
        (ConditionView::Comparison(a, ComparisonOp::Eq, b), Seq::<char>::empty()),
    ));
}

} // verus!
