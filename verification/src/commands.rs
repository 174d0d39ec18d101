//! The command executor: resolves the target table list and runs each
//! command against the in-memory store, table by table, aborting the
//! statement at the first failing table and leaving earlier tables'
//! changes in place.

use vstd::prelude::*;

use crate::command_types::{cond_opt_view, Commands};
use crate::condition::{spec_eval, Condition, ConditionView};
use crate::errors::{ErrorKind, ErrorType};
use crate::extract_query::{spec_split_commas, split_raw};
use crate::scan::{str_eq, trim_spaces, trim_str};
use crate::table::{
    join_commas, spec_join_commas, store_find, store_names, Store, StoreView, Table, TableView,
};
use crate::value_map::{contains_str, ValueMap};

verus! {

/// Copies a vector of strings, value for value.
pub fn clone_strings(v: &Vec<String>) -> (r: Vec<String>)
    ensures
        r@ == v@,
{
    let n = v.len();
    let mut out: Vec<String> = Vec::new();
    let mut i: usize = 0;
    while i < n
        invariant
            0 <= i <= n,
            n == v@.len(),
            out@ =~= v@.subrange(0, i as int),
        decreases n - i,
    {
        out.push(v[i].clone());
        proof {
            assert(out@ =~= v@.subrange(0, i + 1));
        }
        i = i + 1;
    }
    proof {
        assert(v@.subrange(0, n as int) =~= v@);
    }
    out
}

/// The tables a statement resolves to: a lone `*` means every table
/// of the store, which must then be nonempty; any other list stands
/// for itself.
pub open spec fn spec_table_list(tables: Seq<Seq<char>>, sv: StoreView) -> Option<Seq<Seq<char>>> {
    if tables.len() == 1 && tables[0] == "*"@ {
        if sv.len() == 0 {
            None
        } else {
            Some(store_names(sv))
        }
    } else {
        Some(tables)
    }
}

/// Resolves the statement's table list against the store; a wildcard
/// over an empty store is an error.
pub fn create_table_list(tables: &Vec<String>, store: &Store) -> (r: Result<Vec<String>, ErrorType>)
    ensures
        match r {
            Ok(v) => spec_table_list(tables.deep_view(), store@) == Some(v.deep_view()),
            Err(e) => spec_table_list(tables.deep_view(), store@) is None && e is InvalidTable,
        },
{
    if tables.len() == 1 && str_eq(tables[0].as_str(), "*") {
        proof {
            assert(tables.deep_view().len() == 1);
            assert(tables.deep_view()[0] == "*"@);
        }
        if store.len() == 0 {
            Err(ErrorType::InvalidTable(String::from_str("No tables found in the directory")))
        } else {
            Ok(store.table_names())
        }
    } else {
        let out = clone_strings(tables);
        proof {
            assert(out.deep_view() =~~= tables.deep_view());
            if tables@.len() == 1 {
                assert(tables.deep_view()[0] == tables@[0]@);
            }
        }
        Ok(out)
    }
}

/// The field standing at position `i`, or empty text when the row is
/// shorter.
pub open spec fn field_at(fields: Seq<Seq<char>>, i: int) -> Seq<char> {
    if 0 <= i < fields.len() {
        fields[i]
    } else {
        Seq::empty()
    }
}

/// The mapping from column names to fields, position by position; a
/// missing trailing field defaults to empty text, extra fields are
/// dropped, and a duplicated column name keeps its last position's
/// value.
pub open spec fn row_map_of(header: Seq<Seq<char>>, fields: Seq<Seq<char>>) -> Map<
    Seq<char>,
    Seq<char>,
>
    decreases header.len(),
{
    if header.len() == 0 {
        Map::empty()
    } else {
        row_map_of(header.drop_last(), fields).insert(
            header.last(),
            field_at(fields, header.len() - 1),
        )
    }
}

/// The row denoted by one data line under a header: the line is
/// trimmed and split on commas.
pub open spec fn spec_row_map(header: Seq<Seq<char>>, line: Seq<char>) -> Map<Seq<char>, Seq<char>> {
    row_map_of(header, spec_split_commas(trim_spaces(line)))
}

/// Builds the column-to-value mapping of one data line.
pub fn create_row_values_map(table_header: &Vec<String>, buffer: &str) -> (r: ValueMap)
    ensures
        r@ == spec_row_map(table_header.deep_view(), buffer@),
{
    let trimmed = trim_str(buffer);
    let fields = split_raw(trimmed.as_str());
    let ghost fs = spec_split_commas(trim_spaces(buffer@));
    let n = table_header.len();
    let mut vm = ValueMap::new();
    let mut i: usize = 0;
    while i < n
        invariant
            0 <= i <= n,
            n == table_header@.len(),
            fields.deep_view() == fs,
            fields@.len() == fs.len(),
            vm@ == row_map_of(table_header.deep_view().subrange(0, i as int), fs),
        decreases n - i,
    {
        let value: String = if i < fields.len() {
            fields[i].clone()
        } else {
            String::new()
        };
        proof {
            assert(value@ == field_at(fs, i as int)) by {
                if i < fields@.len() {
                    assert(fields@[i as int]@ == fields.deep_view()[i as int]);
                }
            }
        }
        let key = table_header[i].clone();
        vm.insert(key, value);
        proof {
            let pre = table_header.deep_view().subrange(0, i as int);
            let cur = table_header.deep_view().subrange(0, i + 1);
            assert(cur.drop_last() =~= pre);
            assert(cur.last() == table_header.deep_view()[i as int]);
        }
        i = i + 1;
    }
    proof {
        assert(table_header.deep_view().subrange(0, n as int) =~= table_header.deep_view());
    }
    vm
}

/// Whether a row passes the statement's filter: an absent filter
/// accepts every row.
pub open spec fn spec_should_filter(
    c: Option<ConditionView>,
    row: Map<Seq<char>, Seq<char>>,
) -> bool {
    match c {
        Some(cv) => spec_eval(cv, row),
        None => true,
    }
}

/// Evaluates the optional filter on one row; no filter accepts all
/// rows, so a bare `DELETE` empties a table just as a bare `UPDATE`
/// rewrites all of it.
pub fn should_filter(where_st: &Option<Condition>, row: &ValueMap) -> (r: bool)
    ensures
        r == spec_should_filter(cond_opt_view(where_st), row@),
{
    match where_st {
        Some(cond) => cond.evaluate(row),
        None => true,
    }
}

/// Position of the last occurrence of a column name in a header.
pub open spec fn last_index_of(hs: Seq<Seq<char>>, name: Seq<char>) -> Option<int>
    decreases hs.len(),
{
    if hs.len() == 0 {
        None
    } else if hs.last() == name {
        Some(hs.len() - 1)
    } else {
        last_index_of(hs.drop_last(), name)
    }
}

pub proof fn lemma_last_index_of(hs: Seq<Seq<char>>, name: Seq<char>)
    ensures
        match last_index_of(hs, name) {
            Some(i) => 0 <= i < hs.len() && hs[i] == name && forall|j: int|
                i < j < hs.len() ==> hs[j] != name,
            None => forall|j: int| 0 <= j < hs.len() ==> hs[j] != name,
        },
    decreases hs.len(),
{
    if hs.len() > 0 && hs.last() != name {
        lemma_last_index_of(hs.drop_last(), name);
        assert(forall|j: int| 0 <= j < hs.len() - 1 ==> hs[j] == hs.drop_last()[j]);
    }
}

/// Finds the last position of a column name in a header.
pub fn last_index_in(table_header: &Vec<String>, name: &str) -> (r: Option<usize>)
    ensures
        match r {
            Some(i) => last_index_of(table_header.deep_view(), name@) == Some(i as int),
            None => last_index_of(table_header.deep_view(), name@) is None,
        },
{
    let ghost hs = table_header.deep_view();
    let n = table_header.len();
    let mut i: usize = n;
    while i > 0
        invariant
            0 <= i <= n,
            n == table_header@.len(),
            hs == table_header.deep_view(),
            forall|j: int| i <= j < n ==> hs[j] != name@,
        decreases i,
    {
        if str_eq(table_header[i - 1].as_str(), name) {
            proof {
                assert(hs[i - 1] == name@);
                lemma_last_index_of(hs, name@);
                if last_index_of(hs, name@) is None {
                    assert(false);
                }
                let k = last_index_of(hs, name@).unwrap();
                if k < i - 1 {
                    assert(false);
                }
                if k > i - 1 {
                    assert(false);
                }
            }
            return Some(i - 1);
        }
        proof {
            assert(hs[i - 1] == table_header@[i - 1]@);
        }
        i = i - 1;
    }
    proof {
        lemma_last_index_of(hs, name@);
    }
    None
}

/// The fields of the row an `INSERT` builds: when explicit column
/// names were given, each value lands at its column's (last) header
/// position and an unknown column is an error; otherwise the values
/// land positionally, short rows leaving trailing fields empty.
pub open spec fn spec_place_values(
    headers: Seq<Seq<char>>,
    values: Seq<Seq<char>>,
    th: Seq<Seq<char>>,
    k: int,
) -> Result<Seq<Seq<char>>, ErrorKind>
    decreases k,
{
    if k <= 0 {
        Ok(Seq::new(th.len(), |i: int| Seq::<char>::empty()))
    } else {
        match spec_place_values(headers, values, th, k - 1) {
            Ok(fs) => match last_index_of(th, headers[k - 1]) {
                Some(i) => Ok(fs.update(i, values[k - 1])),
                None => Err(ErrorKind::Column),
            },
            Err(e) => Err(e),
        }
    }
}

/// Once a placement step fails, every longer placement fails too.
pub proof fn lemma_place_values_err(
    headers: Seq<Seq<char>>,
    values: Seq<Seq<char>>,
    th: Seq<Seq<char>>,
    k1: int,
    k2: int,
)
    requires
        0 <= k1 <= k2,
        spec_place_values(headers, values, th, k1) is Err,
    ensures
        spec_place_values(headers, values, th, k2) == spec_place_values(headers, values, th, k1),
    decreases k2,
{
    if k1 < k2 {
        lemma_place_values_err(headers, values, th, k1, k2 - 1);
    }
}

pub open spec fn spec_insert_fields(
    headers: Seq<Seq<char>>,
    values: Seq<Seq<char>>,
    th: Seq<Seq<char>>,
) -> Result<Seq<Seq<char>>, ErrorKind> {
    if headers.len() == 0 {
        Ok(
            Seq::new(
                th.len(),
                |i: int|
                    if 0 <= i < values.len() {
                        values[i]
                    } else {
                        Seq::empty()
                    },
            ),
        )
    } else {
        let k = if headers.len() <= values.len() {
            headers.len() as int
        } else {
            values.len() as int
        };
        spec_place_values(headers, values, th, k)
    }
}

/// Demands that an `INSERT` bring no more values than the table has
/// columns.
pub fn check_insert_headers(values: &Vec<String>, table_header: &Vec<String>) -> (r: Result<
    (),
    ErrorType,
>)
    ensures
        match r {
            Ok(()) => values@.len() <= table_header@.len(),
            Err(e) => values@.len() > table_header@.len() && e is InvalidColumn,
        },
{
    if values.len() > table_header.len() {
        return Err(
            ErrorType::InvalidColumn(
                String::from_str("Can't insert more values than the amount of columns"),
            ),
        );
    }
    Ok(())
}

/// Builds the comma-joined row an `INSERT` appends.
pub fn get_insert_row(
    headers: &Vec<String>,
    values: &Vec<String>,
    table_header: &Vec<String>,
) -> (r: Result<String, ErrorType>)
    ensures
        match r {
            Ok(line) => spec_insert_fields(
                headers.deep_view(),
                values.deep_view(),
                table_header.deep_view(),
            ) matches Ok(fs) && line@ == spec_join_commas(fs),
            Err(e) => spec_insert_fields(
                headers.deep_view(),
                values.deep_view(),
                table_header.deep_view(),
            ) == Err::<Seq<Seq<char>>, ErrorKind>(e.kind()) && e is InvalidColumn,
        },
{
    let ghost hd = headers.deep_view();
    let ghost vd = values.deep_view();
    let ghost thd = table_header.deep_view();
    let th_len = table_header.len();
    if headers.len() == 0 {
        let mut row: Vec<String> = Vec::new();
        let mut j: usize = 0;
        while j < th_len
            invariant
                0 <= j <= th_len,
                th_len == table_header@.len(),
                vd == values.deep_view(),
                row@.len() == j,
                forall|t: int| 0 <= t < j ==> (#[trigger] row@[t])@ == (if 0 <= t < vd.len() {
                    vd[t]
                } else {
                    Seq::<char>::empty()
                }),
            decreases th_len - j,
        {
            let value: String = if j < values.len() {
                values[j].clone()
            } else {
                String::new()
            };
            proof {
                if j < values@.len() {
                    assert(values@[j as int]@ == vd[j as int]);
                }
            }
            row.push(value);
            j = j + 1;
        }
        let ghost fs = spec_insert_fields(hd, vd, thd)->Ok_0;
        proof {
            assert forall|t: int| 0 <= t < th_len implies row.deep_view()[t] == fs[t] by {
                assert(row.deep_view()[t] == row@[t]@);
            }
            assert(row.deep_view() =~= fs);
        }
        Ok(join_commas(&row))
    } else {
        let mut row: Vec<String> = Vec::new();
        let mut j: usize = 0;
        while j < th_len
            invariant
                0 <= j <= th_len,
                th_len == table_header@.len(),
                row@.len() == j,
                forall|t: int| 0 <= t < j ==> (#[trigger] row@[t])@ == Seq::<char>::empty(),
            decreases th_len - j,
        {
            let empty_s = String::new();
            row.push(empty_s);
            j = j + 1;
        }
        let ghost init = Seq::new(thd.len(), |i: int| Seq::<char>::empty());
        let ghost mut gfields = init;
        proof {
            assert forall|t: int| 0 <= t < th_len implies row@[t]@ == gfields[t] by {}
        }
        let k: usize = if headers.len() <= values.len() {
            headers.len()
        } else {
            values.len()
        };
        let mut t: usize = 0;
        while t < k
            invariant
                0 <= t <= k,
                th_len == table_header@.len(),
                hd == headers.deep_view(),
                vd == values.deep_view(),
                thd == table_header.deep_view(),
                k <= headers@.len(),
                k <= values@.len(),
                hd.len() > 0,
                k as int == (if hd.len() <= vd.len() {
                    hd.len() as int
                } else {
                    vd.len() as int
                }),
                spec_place_values(hd, vd, thd, t as int) == Ok::<Seq<Seq<char>>, ErrorKind>(
                    gfields,
                ),
                row@.len() == th_len,
                gfields.len() == th_len,
                forall|u: int| 0 <= u < th_len ==> (#[trigger] row@[u])@ == gfields[u],
            decreases k - t,
        {
            match last_index_in(table_header, headers[t].as_str()) {
                Some(idx) => {
                    proof {
                        assert(headers@[t as int]@ == hd[t as int]);
                        lemma_last_index_of(thd, hd[t as int]);
                    }
                    let value = values[t].clone();
                    proof {
                        assert(values@[t as int]@ == vd[t as int]);
                    }
                    row[idx] = value;
                    proof {
                        gfields = gfields.update(idx as int, vd[t as int]);
                    }
                },
                None => {
                    proof {
                        assert(headers@[t as int]@ == hd[t as int]);
                        assert(spec_place_values(hd, vd, thd, t + 1) == Err::<
                            Seq<Seq<char>>,
                            ErrorKind,
                        >(ErrorKind::Column));
                        lemma_place_values_err(hd, vd, thd, t + 1, k as int);
                    }
                    let mut msg = String::from_str("Header '");
                    msg.append(headers[t].as_str());
                    msg.append("' not found in the CSV file");
                    return Err(ErrorType::InvalidColumn(msg));
                },
            }
            t = t + 1;
        }
        let ghost fs = spec_insert_fields(hd, vd, thd)->Ok_0;
        proof {
            assert forall|u: int| 0 <= u < th_len implies row.deep_view()[u] == fs[u] by {
                assert(row.deep_view()[u] == row@[u]@);
            }
            assert(row.deep_view() =~= fs);
        }
        Ok(join_commas(&row))
    }
}

/// One table after an `INSERT`: the built row is appended; a value
/// count over the header width or an unknown explicit column is an
/// error and leaves the table as it was.
pub open spec fn spec_insert_table(
    tv: TableView,
    headers: Seq<Seq<char>>,
    values: Seq<Seq<char>>,
) -> Result<TableView, ErrorKind> {
    if values.len() > tv.header.len() {
        Err(ErrorKind::Column)
    } else {
        match spec_insert_fields(headers, values, tv.header) {
            Ok(fs) => Ok(
                TableView { header: tv.header, lines: tv.lines.push(spec_join_commas(fs)) },
            ),
            Err(k) => Err(k),
        }
    }
}

/// The store after an `INSERT` runs over the resolved table list, and
/// the first error if one stops it; tables before the failing one
/// keep their new row.
pub open spec fn spec_run_insert(
    sv: StoreView,
    names: Seq<Seq<char>>,
    headers: Seq<Seq<char>>,
    values: Seq<Seq<char>>,
) -> (StoreView, Option<ErrorKind>)
    decreases names.len(),
{
    if names.len() == 0 {
        (sv, None)
    } else {
        match store_find(sv, names[0]) {
            None => (sv, Some(ErrorKind::Table)),
            Some(i) => if 0 <= i < sv.len() {
                match spec_insert_table(sv[i].1, headers, values) {
                    Ok(t) => spec_run_insert(
                        sv.update(i, (sv[i].0, t)),
                        names.skip(1),
                        headers,
                        values,
                    ),
                    Err(k) => (sv, Some(k)),
                }
            } else {
                (sv, Some(ErrorKind::Table))
            },
        }
    }
}

/// Appends one row to every target table; the row is built from the
/// values, positionally or by explicit column names.
pub fn insert(
    tables: &Vec<String>,
    headers: &Vec<String>,
    values: &Vec<String>,
    store: &mut Store,
) -> (r: Result<Option<String>, ErrorType>)
    ensures
        match spec_table_list(tables.deep_view(), old(store)@) {
            None => final(store)@ == old(store)@ && (r matches Err(e) && e is InvalidTable),
            Some(names) => {
                let pr = spec_run_insert(
                    old(store)@,
                    names,
                    headers.deep_view(),
                    values.deep_view(),
                );
                &&& final(store)@ == pr.0
                &&& match pr.1 {
                    None => r matches Ok(o) && o is None,
                    Some(k) => r matches Err(e) && e.kind() == k,
                }
            },
        },
{
    let ghost sv0 = store@;
    let table_list = match create_table_list(tables, store) {
        Ok(v) => v,
        Err(e) => {
            return Err(e);
        },
    };
    let ghost names = table_list.deep_view();
    let n = table_list.len();
    let mut k: usize = 0;
    proof {
        assert(names.skip(0) =~= names);
    }
    while k < n
        invariant
            0 <= k <= n,
            n == table_list@.len(),
            sv0 == old(store)@,
            names == table_list.deep_view(),
            spec_table_list(tables.deep_view(), sv0) == Some(names),
            spec_run_insert(sv0, names, headers.deep_view(), values.deep_view())
                == spec_run_insert(
                store@,
                names.skip(k as int),
                headers.deep_view(),
                values.deep_view(),
            ),
        decreases n - k,
    {
        let ghost rem = names.skip(k as int);
        proof {
            assert(rem[0] == names[k as int]);
            assert(table_list@[k as int]@ == names[k as int]);
            assert(rem.skip(1) =~= names.skip(k + 1));
        }
        let i = match store.find_table(table_list[k].as_str()) {
            Some(i) => i,
            None => {
                return Err(ErrorType::InvalidTable(String::from_str("Error opening table")));
            },
        };
        let (new_header, new_lines) = {
            let t = store.table_at(i);
            match check_insert_headers(values, &t.header) {
                Ok(()) => {},
                Err(e) => {
                    return Err(e);
                },
            }
            let line = match get_insert_row(headers, values, &t.header) {
                Ok(line) => line,
                Err(e) => {
                    return Err(e);
                },
            };
            let new_header = clone_strings(&t.header);
            let mut new_lines = clone_strings(&t.lines);
            new_lines.push(line);
            (new_header, new_lines)
        };
        let new_table = Table { header: new_header, lines: new_lines };
        proof {
            let tv = store@[i as int].1;
            assert(new_table@.header =~~= tv.header);
            assert(new_table@.lines =~~= tv.lines.push(
                spec_join_commas(
                    spec_insert_fields(
                        headers.deep_view(),
                        values.deep_view(),
                        tv.header,
                    )->Ok_0,
                ),
            ));
        }
        store.set_table(i, new_table);
        k = k + 1;
    }
    proof {
        assert(names.skip(n as int) =~= Seq::<Seq<char>>::empty());
    }
    Ok(None)
}

/// The lines kept by a `DELETE`: rows the filter accepts are dropped,
/// the others pass through trimmed, in their original order.
pub open spec fn spec_delete_lines(
    th: Seq<Seq<char>>,
    lines: Seq<Seq<char>>,
    cond: Option<ConditionView>,
) -> Seq<Seq<char>>
    decreases lines.len(),
{
    if lines.len() == 0 {
        Seq::empty()
    } else {
        let prev = spec_delete_lines(th, lines.drop_last(), cond);
        if spec_should_filter(cond, spec_row_map(th, lines.last())) {
            prev
        } else {
            prev + seq![trim_spaces(lines.last())]
        }
    }
}

/// The store after a `DELETE` runs over the resolved table list.
pub open spec fn spec_run_delete(
    sv: StoreView,
    names: Seq<Seq<char>>,
    cond: Option<ConditionView>,
) -> (StoreView, Option<ErrorKind>)
    decreases names.len(),
{
    if names.len() == 0 {
        (sv, None)
    } else {
        match store_find(sv, names[0]) {
            None => (sv, Some(ErrorKind::Table)),
            Some(i) => if 0 <= i < sv.len() {
                let tv = sv[i].1;
                let nt = TableView {
                    header: tv.header,
                    lines: spec_delete_lines(tv.header, tv.lines, cond),
                };
                spec_run_delete(sv.update(i, (sv[i].0, nt)), names.skip(1), cond)
            } else {
                (sv, Some(ErrorKind::Table))
            },
        }
    }
}

/// Removes from every target table the rows the filter accepts; with
/// no filter every row is removed.
pub fn delete(tables: &Vec<String>, where_st: &Option<Condition>, store: &mut Store) -> (r: Result<
    Option<String>,
    ErrorType,
>)
    ensures
        match spec_table_list(tables.deep_view(), old(store)@) {
            None => final(store)@ == old(store)@ && (r matches Err(e) && e is InvalidTable),
            Some(names) => {
                let pr = spec_run_delete(old(store)@, names, cond_opt_view(where_st));
                &&& final(store)@ == pr.0
                &&& match pr.1 {
                    None => r matches Ok(o) && o is None,
                    Some(k) => r matches Err(e) && e.kind() == k,
                }
            },
        },
{
    let ghost sv0 = store@;
    let table_list = match create_table_list(tables, store) {
        Ok(v) => v,
        Err(e) => {
            return Err(e);
        },
    };
    let ghost names = table_list.deep_view();
    let n = table_list.len();
    let mut k: usize = 0;
    proof {
        assert(names.skip(0) =~= names);
    }
    while k < n
        invariant
            0 <= k <= n,
            n == table_list@.len(),
            sv0 == old(store)@,
            names == table_list.deep_view(),
            spec_table_list(tables.deep_view(), sv0) == Some(names),
            spec_run_delete(sv0, names, cond_opt_view(where_st)) == spec_run_delete(
                store@,
                names.skip(k as int),
                cond_opt_view(where_st),
            ),
        decreases n - k,
    {
        let ghost rem = names.skip(k as int);
        proof {
            assert(rem[0] == names[k as int]);
            assert(table_list@[k as int]@ == names[k as int]);
            assert(rem.skip(1) =~= names.skip(k + 1));
        }
        let i = match store.find_table(table_list[k].as_str()) {
            Some(i) => i,
            None => {
                return Err(ErrorType::InvalidTable(String::from_str("Error opening table")));
            },
        };
        let (new_header, new_lines) = {
            let t = store.table_at(i);
            let ghost tv = store@[i as int].1;
            let m = t.lines.len();
            let mut out: Vec<String> = Vec::new();
            let ghost mut kept = Seq::<Seq<char>>::empty();
            let mut j: usize = 0;
            proof {
                assert(spec_delete_lines(tv.header, tv.lines.subrange(0, 0), cond_opt_view(
                    where_st,
                )) =~= kept);
                assert(tv.lines.subrange(0, 0) =~= Seq::<Seq<char>>::empty());
            }
            while j < m
                invariant
                    0 <= j <= m,
                    m == t.lines@.len(),
                    tv == t@,
                    kept == spec_delete_lines(
                        tv.header,
                        tv.lines.subrange(0, j as int),
                        cond_opt_view(where_st),
                    ),
                    out@.len() == kept.len(),
                    forall|u: int| 0 <= u < out@.len() ==> (#[trigger] out@[u])@ == kept[u],
                decreases m - j,
            {
                let line = &t.lines[j];
                let row = create_row_values_map(&t.header, line.as_str());
                let keep = !should_filter(where_st, &row);
                proof {
                    let pre = tv.lines.subrange(0, j as int);
                    let cur = tv.lines.subrange(0, j + 1);
                    assert(cur.drop_last() =~= pre);
                    assert(cur.last() == tv.lines[j as int]);
                    assert(t.lines@[j as int]@ == tv.lines[j as int]);
                }
                if keep {
                    let kept_line = trim_str(line.as_str());
                    out.push(kept_line);
                    proof {
                        kept = kept + seq![trim_spaces(tv.lines[j as int])];
                    }
                }
                j = j + 1;
            }
            proof {
                assert(tv.lines.subrange(0, m as int) =~= tv.lines);
            }
            (clone_strings(&t.header), out)
        };
        let new_table = Table { header: new_header, lines: new_lines };
        proof {
            let tv = store@[i as int].1;
            assert(new_table@.header =~~= tv.header);
            assert forall|u: int| 0 <= u < new_table@.lines.len() implies new_table@.lines[u]
                == spec_delete_lines(tv.header, tv.lines, cond_opt_view(where_st))[u] by {
                assert(new_table@.lines[u] == new_lines@[u]@);
            }
            assert(new_table@.lines =~= spec_delete_lines(
                tv.header,
                tv.lines,
                cond_opt_view(where_st),
            ));
        }
        store.set_table(i, new_table);
        k = k + 1;
    }
    proof {
        assert(names.skip(n as int) =~= Seq::<Seq<char>>::empty());
    }
    Ok(None)
}

/// Demands that every assigned column exist in the table's header.
pub fn check_update_headers(updates: &ValueMap, table_header: &Vec<String>) -> (r: Result<
    (),
    ErrorType,
>)
    ensures
        match r {
            Ok(()) => forall|c: Seq<char>|
                updates@.contains_key(c) ==> table_header.deep_view().contains(c),
            Err(e) => (exists|c: Seq<char>|
                updates@.contains_key(c) && !table_header.deep_view().contains(c)) && e
                is InvalidColumn,
        },
{
    match updates.first_key_not_in(table_header) {
        Some(key) => {
            let mut msg = String::from_str("Column to update '");
            msg.append(key.as_str());
            msg.append("' not found in the table");
            Err(ErrorType::InvalidColumn(msg))
        },
        None => Ok(()),
    }
}

/// The fields of a row rebuilt by an `UPDATE`: per header column, the
/// assigned value if that column is assigned, else the row's own
/// value.
pub open spec fn spec_updated_fields(
    th: Seq<Seq<char>>,
    row: Map<Seq<char>, Seq<char>>,
    updates: Map<Seq<char>, Seq<char>>,
) -> Seq<Seq<char>> {
    Seq::new(
        th.len(),
        |i: int|
            if updates.contains_key(th[i]) {
                updates[th[i]]
            } else if row.contains_key(th[i]) {
                row[th[i]]
            } else {
                Seq::empty()
            },
    )
}

/// Rebuilds one row, taking assigned values where present and the
/// row's own values elsewhere.
pub fn update_row_values(
    table_header: &Vec<String>,
    row_values_map: &ValueMap,
    updates: &ValueMap,
) -> (r: Vec<String>)
    ensures
        r.deep_view() == spec_updated_fields(table_header.deep_view(), row_values_map@, updates@),
{
    let n = table_header.len();
    let mut out: Vec<String> = Vec::new();
    let ghost want = spec_updated_fields(table_header.deep_view(), row_values_map@, updates@);
    let mut i: usize = 0;
    while i < n
        invariant
            0 <= i <= n,
            n == table_header@.len(),
            want == spec_updated_fields(
                table_header.deep_view(),
                row_values_map@,
                updates@,
            ),
            out@.len() == i,
            forall|j: int| 0 <= j < i ==> (#[trigger] out@[j])@ == want[j],
        decreases n - i,
    {
        let h = &table_header[i];
        proof {
            assert(table_header@[i as int]@ == table_header.deep_view()[i as int]);
        }
        let value: String = match updates.get(h.as_str()) {
            Some(v) => v.clone(),
            None => match row_values_map.get(h.as_str()) {
                Some(v) => v.clone(),
                None => String::new(),
            },
        };
        out.push(value);
        i = i + 1;
    }
    proof {
        assert forall|j: int| 0 <= j < n implies out.deep_view()[j] == want[j] by {
            assert(out.deep_view()[j] == out@[j]@);
        }
        assert(out.deep_view() =~= want);
    }
    out
}

/// One output line of an `UPDATE`: a matching row is rebuilt and
/// re-joined, a non-matching row passes through trimmed.
pub open spec fn spec_update_line(
    th: Seq<Seq<char>>,
    updates: Map<Seq<char>, Seq<char>>,
    cond: Option<ConditionView>,
    line: Seq<char>,
) -> Seq<char> {
    if spec_should_filter(cond, spec_row_map(th, line)) {
        spec_join_commas(spec_updated_fields(th, spec_row_map(th, line), updates))
    } else {
        trim_spaces(line)
    }
}

/// Appends to the new table body the line an `UPDATE` produces for
/// one row.
pub fn write_update(
    aux: &mut Vec<String>,
    should_update: bool,
    table_header: &Vec<String>,
    row_values_map: &ValueMap,
    updates: &ValueMap,
    buffer: &str,
) -> (r: Result<(), ErrorType>)
    ensures
        r is Ok,
        final(aux)@.len() == old(aux)@.len() + 1,
        forall|j: int| 0 <= j < old(aux)@.len() ==> final(aux)@[j] == old(aux)@[j],
        final(aux)@.last()@ == (if should_update {
            spec_join_commas(
                spec_updated_fields(table_header.deep_view(), row_values_map@, updates@),
            )
        } else {
            trim_spaces(buffer@)
        }),
{
    if should_update {
        let updated_row = update_row_values(table_header, row_values_map, updates);
        let line = join_commas(&updated_row);
        aux.push(line);
    } else {
        let line = trim_str(buffer);
        aux.push(line);
    }
    Ok(())
}

/// The lines of a table after an `UPDATE`.
pub open spec fn spec_update_lines(
    th: Seq<Seq<char>>,
    lines: Seq<Seq<char>>,
    updates: Map<Seq<char>, Seq<char>>,
    cond: Option<ConditionView>,
) -> Seq<Seq<char>> {
    Seq::new(lines.len(), |i: int| spec_update_line(th, updates, cond, lines[i]))
}

/// The store after an `UPDATE` runs over the resolved table list; a
/// table whose header lacks an assigned column fails before any of
/// its rows is touched.
pub open spec fn spec_run_update(
    sv: StoreView,
    names: Seq<Seq<char>>,
    updates: Map<Seq<char>, Seq<char>>,
    cond: Option<ConditionView>,
) -> (StoreView, Option<ErrorKind>)
    decreases names.len(),
{
    if names.len() == 0 {
        (sv, None)
    } else {
        match store_find(sv, names[0]) {
            None => (sv, Some(ErrorKind::Table)),
            Some(i) => if 0 <= i < sv.len() {
                let tv = sv[i].1;
                if exists|c: Seq<char>| updates.contains_key(c) && !tv.header.contains(c) {
                    (sv, Some(ErrorKind::Column))
                } else {
                    let nt = TableView {
                        header: tv.header,
                        lines: spec_update_lines(tv.header, tv.lines, updates, cond),
                    };
                    spec_run_update(sv.update(i, (sv[i].0, nt)), names.skip(1), updates, cond)
                }
            } else {
                (sv, Some(ErrorKind::Table))
            },
        }
    }
}

/// Rewrites in every target table the rows the filter accepts,
/// taking each assigned column's new value; with no filter every row
/// is rewritten.
pub fn update(
    tables: &Vec<String>,
    updates: &ValueMap,
    where_st: &Option<Condition>,
    store: &mut Store,
) -> (r: Result<Option<String>, ErrorType>)
    ensures
        match spec_table_list(tables.deep_view(), old(store)@) {
            None => final(store)@ == old(store)@ && (r matches Err(e) && e is InvalidTable),
            Some(names) => {
                let pr = spec_run_update(old(store)@, names, updates@, cond_opt_view(where_st));
                &&& final(store)@ == pr.0
                &&& match pr.1 {
                    None => r matches Ok(o) && o is None,
                    Some(k) => r matches Err(e) && e.kind() == k,
                }
            },
        },
{
    let ghost sv0 = store@;
    let table_list = match create_table_list(tables, store) {
        Ok(v) => v,
        Err(e) => {
            return Err(e);
        },
    };
    let ghost names = table_list.deep_view();
    let n = table_list.len();
    let mut k: usize = 0;
    proof {
        assert(names.skip(0) =~= names);
    }
    while k < n
        invariant
            0 <= k <= n,
            n == table_list@.len(),
            sv0 == old(store)@,
            names == table_list.deep_view(),
            spec_table_list(tables.deep_view(), sv0) == Some(names),
            spec_run_update(sv0, names, updates@, cond_opt_view(where_st)) == spec_run_update(
                store@,
                names.skip(k as int),
                updates@,
                cond_opt_view(where_st),
            ),
        decreases n - k,
    {
        let ghost rem = names.skip(k as int);
        proof {
            assert(rem[0] == names[k as int]);
            assert(table_list@[k as int]@ == names[k as int]);
            assert(rem.skip(1) =~= names.skip(k + 1));
        }
        let i = match store.find_table(table_list[k].as_str()) {
            Some(i) => i,
            None => {
                return Err(ErrorType::InvalidTable(String::from_str("Error opening table")));
            },
        };
        let (new_header, new_lines) = {
            let t = store.table_at(i);
            let ghost tv = store@[i as int].1;
            match check_update_headers(updates, &t.header) {
                Ok(()) => {},
                Err(e) => {
                    return Err(e);
                },
            }
            let m = t.lines.len();
            let mut out: Vec<String> = Vec::new();
            let mut j: usize = 0;
            while j < m
                invariant
                    0 <= j <= m,
                    m == t.lines@.len(),
                    tv == t@,
                    out@.len() == j,
                    forall|u: int| 0 <= u < j ==> (#[trigger] out@[u])@ == spec_update_line(
                        tv.header,
                        updates@,
                        cond_opt_view(where_st),
                        tv.lines[u],
                    ),
                decreases m - j,
            {
                let line = &t.lines[j];
                proof {
                    assert(t.lines@[j as int]@ == tv.lines[j as int]);
                }
                let row = create_row_values_map(&t.header, line.as_str());
                let should_update = should_filter(where_st, &row);
                match write_update(&mut out, should_update, &t.header, &row, updates, line.as_str())
                {
                    Ok(()) => {},
                    Err(e) => {
                        return Err(e);
                    },
                }
                j = j + 1;
            }
            (clone_strings(&t.header), out)
        };
        let new_table = Table { header: new_header, lines: new_lines };
        proof {
            let tv = store@[i as int].1;
            assert(new_table@.header =~~= tv.header);
            assert forall|u: int| 0 <= u < new_table@.lines.len() implies new_table@.lines[u]
                == spec_update_lines(tv.header, tv.lines, updates@, cond_opt_view(where_st))[u] by {
                assert(new_table@.lines[u] == new_lines@[u]@);
            }
            assert(new_table@.lines =~= spec_update_lines(
                tv.header,
                tv.lines,
                updates@,
                cond_opt_view(where_st),
            ));
        }
        store.set_table(i, new_table);
        k = k + 1;
    }
    proof {
        assert(names.skip(n as int) =~= Seq::<Seq<char>>::empty());
    }
    Ok(None)
}

/// Position of the first occurrence of a column name in a header.
pub open spec fn first_index_of(hs: Seq<Seq<char>>, name: Seq<char>) -> Option<int>
    decreases hs.len(),
{
    if hs.len() == 0 {
        None
    } else if hs[0] == name {
        Some(0)
    } else {
        match first_index_of(hs.skip(1), name) {
            Some(i) => Some(i + 1),
            None => None,
        }
    }
}

pub proof fn lemma_first_index_of(hs: Seq<Seq<char>>, name: Seq<char>)
    ensures
        match first_index_of(hs, name) {
            Some(i) => 0 <= i < hs.len() && hs[i] == name && forall|j: int|
                0 <= j < i ==> hs[j] != name,
            None => forall|j: int| 0 <= j < hs.len() ==> hs[j] != name,
        },
    decreases hs.len(),
{
    if hs.len() > 0 && hs[0] != name {
        lemma_first_index_of(hs.skip(1), name);
        assert(forall|j: int| 1 <= j < hs.len() ==> hs[j] == hs.skip(1)[j - 1]);
    }
}

/// Finds the first position of a column name in a header.
pub fn first_index_in(headers: &Vec<String>, name: &str) -> (r: Option<usize>)
    ensures
        match r {
            Some(i) => first_index_of(headers.deep_view(), name@) == Some(i as int) && i < headers@.len(),
            None => first_index_of(headers.deep_view(), name@) is None,
        },
{
    let ghost hs = headers.deep_view();
    let n = headers.len();
    let mut i: usize = 0;
    while i < n
        invariant
            0 <= i <= n,
            n == headers@.len(),
            hs == headers.deep_view(),
            forall|j: int| 0 <= j < i ==> hs[j] != name@,
        decreases n - i,
    {
        if str_eq(headers[i].as_str(), name) {
            proof {
                assert(hs[i as int] == name@);
                lemma_first_index_of(hs, name@);
                if first_index_of(hs, name@) is None {
                    assert(false);
                }
                let k = first_index_of(hs, name@)->Some_0;
                if k < i {
                    assert(false);
                }
                if k > i {
                    assert(false);
                }
            }
            return Some(i);
        }
        proof {
            assert(hs[i as int] == headers@[i as int]@);
        }
        i = i + 1;
    }
    proof {
        lemma_first_index_of(hs, name@);
    }
    None
}

/// A comparison outcome with its operands exchanged.
pub open spec fn val_flip(o: crate::compare::ValOrder) -> crate::compare::ValOrder {
    match o {
        crate::compare::ValOrder::Less => crate::compare::ValOrder::Greater,
        crate::compare::ValOrder::Equal => crate::compare::ValOrder::Equal,
        crate::compare::ValOrder::Greater => crate::compare::ValOrder::Less,
    }
}

/// The stable multi-key comparison of two projected rows: keys are
/// taken in priority order; each key compares the values at its
/// column's projected position under the engine's numeric-or-text
/// policy, reversed for a descending key; a tie moves to the next
/// key, and a key whose column or positions are missing is skipped.
pub open spec fn spec_row_cmp(
    a: Seq<Seq<char>>,
    b: Seq<Seq<char>>,
    crits: Seq<crate::order::OrderByView>,
    headers: Seq<Seq<char>>,
) -> crate::compare::ValOrder
    decreases crits.len(),
{
    if crits.len() == 0 {
        crate::compare::ValOrder::Equal
    } else {
        let c = crits[0];
        let o = match first_index_of(headers, c.column) {
            Some(i) => if 0 <= i < a.len() && i < b.len() {
                crate::compare::val_cmp(a[i], b[i])
            } else {
                crate::compare::ValOrder::Equal
            },
            None => crate::compare::ValOrder::Equal,
        };
        let o2 = if c.direction is Descending {
            val_flip(o)
        } else {
            o
        };
        if o2 != crate::compare::ValOrder::Equal {
            o2
        } else {
            spec_row_cmp(a, b, crits.skip(1), headers)
        }
    }
}

/// Exchanging the rows reverses the multi-key comparison.
pub proof fn lemma_row_cmp_antisym(
    a: Seq<Seq<char>>,
    b: Seq<Seq<char>>,
    crits: Seq<crate::order::OrderByView>,
    headers: Seq<Seq<char>>,
)
    ensures
        spec_row_cmp(a, b, crits, headers) == val_flip(spec_row_cmp(b, a, crits, headers)),
    decreases crits.len(),
{
    if crits.len() > 0 {
        let c = crits[0];
        match first_index_of(headers, c.column) {
            Some(i) => {
                if 0 <= i < a.len() && i < b.len() {
                    crate::compare::lemma_val_cmp_antisym(a[i], b[i]);
                }
            },
            None => {},
        }
        lemma_row_cmp_antisym(a, b, crits.skip(1), headers);
    }
}

/// Compares two projected rows under the sort keys.
pub fn row_cmp(
    a: &Vec<String>,
    b: &Vec<String>,
    criteras: &Vec<crate::order::OrderBy>,
    headers: &Vec<String>,
) -> (r: crate::compare::ValOrder)
    ensures
        r == spec_row_cmp(a.deep_view(), b.deep_view(), criteras.deep_view(), headers.deep_view()),
{
    let ghost ad = a.deep_view();
    let ghost bd = b.deep_view();
    let ghost cd = criteras.deep_view();
    let ghost hd = headers.deep_view();
    let n = criteras.len();
    let mut k: usize = 0;
    proof {
        assert(cd.skip(0) =~= cd);
    }
    while k < n
        invariant
            0 <= k <= n,
            n == criteras@.len(),
            ad == a.deep_view(),
            bd == b.deep_view(),
            cd == criteras.deep_view(),
            hd == headers.deep_view(),
            spec_row_cmp(ad, bd, cd, hd) == spec_row_cmp(ad, bd, cd.skip(k as int), hd),
        decreases n - k,
    {
        let crit = &criteras[k];
        proof {
            assert(cd.skip(k as int)[0] == cd[k as int]);
            assert(criteras@[k as int]@ == cd[k as int]);
            assert(cd.skip(k as int).skip(1) =~= cd.skip(k + 1));
        }
        let o2: crate::compare::ValOrder = match first_index_in(headers, crit.column.as_str()) {
            Some(i) => {
                if i < a.len() && i < b.len() {
                    let o = crate::compare::compare_values(a[i].as_str(), b[i].as_str());
                    proof {
                        assert(a@[i as int]@ == ad[i as int]);
                        assert(b@[i as int]@ == bd[i as int]);
                    }
                    match crit.direction {
                        crate::order::Direction::Ascending => o,
                        crate::order::Direction::Descending => match o {
                            crate::compare::ValOrder::Less => crate::compare::ValOrder::Greater,
                            crate::compare::ValOrder::Equal => crate::compare::ValOrder::Equal,
                            crate::compare::ValOrder::Greater => crate::compare::ValOrder::Less,
                        },
                    }
                } else {
                    crate::compare::ValOrder::Equal
                }
            },
            None => crate::compare::ValOrder::Equal,
        };
        if !matches!(o2, crate::compare::ValOrder::Equal) {
            return o2;
        }
        k = k + 1;
    }
    proof {
        assert(cd.skip(n as int) =~= Seq::<crate::order::OrderByView>::empty());
    }
    crate::compare::ValOrder::Equal
}

/// Adjacent sortedness of projected rows under the sort keys.
pub open spec fn rows_sorted_by(
    rs: Seq<Vec<String>>,
    crits: Seq<crate::order::OrderByView>,
    headers: Seq<Seq<char>>,
) -> bool {
    forall|i: int|
        0 <= i < rs.len() - 1 ==> #[trigger] spec_row_cmp(
            rs[i].deep_view(),
            rs[i + 1].deep_view(),
            crits,
            headers,
        ) != crate::compare::ValOrder::Greater
}

/// Inserting anywhere adds exactly one occurrence to the multiset.
proof fn lemma_insert_to_multiset<A>(s: Seq<A>, i: int, x: A)
    requires
        0 <= i <= s.len(),
    ensures
        s.insert(i, x).to_multiset() =~= s.to_multiset().insert(x),
{
    broadcast use vstd::seq_lib::group_to_multiset_ensures;

    let a = s.subrange(0, i);
    let b = s.subrange(i, s.len() as int);
    assert(s =~= a + b);
    assert(s.insert(i, x) =~= a + (seq![x] + b));
    vstd::seq_lib::lemma_multiset_commutative(a, b);
    vstd::seq_lib::lemma_multiset_commutative(a, seq![x] + b);
    vstd::seq_lib::lemma_multiset_commutative(seq![x], b);
    assert(seq![x] =~= Seq::<A>::empty().push(x));
    assert(Seq::<A>::empty().push(x).to_multiset() =~= Seq::<A>::empty().to_multiset().insert(x));
    assert(Seq::<A>::empty().to_multiset() =~= vstd::multiset::Multiset::<A>::empty()) by {
        assert(Seq::<A>::empty().to_multiset().len() == 0);
    }
}

/// Where a new row belongs in an already sorted block: after every
/// row it does not precede, before the tail of strictly greater
/// rows.
fn insert_pos(
    out: &Vec<Vec<String>>,
    row: &Vec<String>,
    criteras: &Vec<crate::order::OrderBy>,
    headers: &Vec<String>,
) -> (pos: usize)
    ensures
        pos <= out@.len(),
        forall|k: int|
            pos <= k < out@.len() ==> #[trigger] spec_row_cmp(
                out@[k].deep_view(),
                row.deep_view(),
                criteras.deep_view(),
                headers.deep_view(),
            ) == crate::compare::ValOrder::Greater,
        pos > 0 ==> spec_row_cmp(
            out@[pos - 1].deep_view(),
            row.deep_view(),
            criteras.deep_view(),
            headers.deep_view(),
        ) != crate::compare::ValOrder::Greater,
{
    let mut pos = out.len();
    while pos > 0
        invariant
            0 <= pos <= out@.len(),
            forall|k: int|
                pos <= k < out@.len() ==> #[trigger] spec_row_cmp(
                    out@[k].deep_view(),
                    row.deep_view(),
                    criteras.deep_view(),
                    headers.deep_view(),
                ) == crate::compare::ValOrder::Greater,
        decreases pos,
    {
        let c = row_cmp(&out[pos - 1], row, criteras, headers);
        if !matches!(c, crate::compare::ValOrder::Greater) {
            return pos;
        }
        pos = pos - 1;
    }
    pos
}

/// Where a row lands in an already sorted block: after every row it
/// does not strictly precede, so rows tied on every key keep their
/// relative order.
pub open spec fn spec_insert_row_sorted(
    sorted: Seq<Vec<String>>,
    x: Vec<String>,
    crits: Seq<crate::order::OrderByView>,
    headers: Seq<Seq<char>>,
) -> Seq<Vec<String>>
    decreases sorted.len(),
{
    if sorted.len() == 0 {
        seq![x]
    } else if spec_row_cmp(sorted.last().deep_view(), x.deep_view(), crits, headers)
        == crate::compare::ValOrder::Greater {
        spec_insert_row_sorted(sorted.drop_last(), x, crits, headers).push(sorted.last())
    } else {
        sorted.push(x)
    }
}

/// The stable insertion sort of the projected rows, scan order kept
/// among rows tied on every key.
pub open spec fn spec_sort_rows(
    rows: Seq<Vec<String>>,
    crits: Seq<crate::order::OrderByView>,
    headers: Seq<Seq<char>>,
) -> Seq<Vec<String>>
    decreases rows.len(),
{
    if rows.len() == 0 {
        Seq::empty()
    } else {
        spec_insert_row_sorted(
            spec_sort_rows(rows.drop_last(), crits, headers),
            rows.last(),
            crits,
            headers,
        )
    }
}

/// Inserting at the position the scan finds is what the sorted
/// insertion denotes.
proof fn lemma_insert_row_at_pos(
    sorted: Seq<Vec<String>>,
    x: Vec<String>,
    crits: Seq<crate::order::OrderByView>,
    headers: Seq<Seq<char>>,
    pos: int,
)
    requires
        0 <= pos <= sorted.len(),
        forall|k: int|
            pos <= k < sorted.len() ==> #[trigger] spec_row_cmp(
                sorted[k].deep_view(),
                x.deep_view(),
                crits,
                headers,
            ) == crate::compare::ValOrder::Greater,
        pos > 0 ==> spec_row_cmp(sorted[pos - 1].deep_view(), x.deep_view(), crits, headers)
            != crate::compare::ValOrder::Greater,
    ensures
        spec_insert_row_sorted(sorted, x, crits, headers) == sorted.insert(pos, x),
    decreases sorted.len(),
{
    if sorted.len() == 0 {
        assert(seq![x] =~= sorted.insert(0, x));
    } else if spec_row_cmp(sorted.last().deep_view(), x.deep_view(), crits, headers)
        == crate::compare::ValOrder::Greater {
        assert(pos < sorted.len());
        let pre = sorted.drop_last();
        assert(forall|k: int| pos <= k < pre.len() ==> pre[k] == sorted[k]);
        if pos > 0 {
            assert(pre[pos - 1] == sorted[pos - 1]);
        }
        lemma_insert_row_at_pos(pre, x, crits, headers, pos);
        assert(pre.insert(pos, x).push(sorted.last()) =~= sorted.insert(pos, x));
    } else {
        assert(pos == sorted.len()) by {
            if pos < sorted.len() {
                assert(spec_row_cmp(
                    sorted[sorted.len() - 1].deep_view(),
                    x.deep_view(),
                    crits,
                    headers,
                ) == crate::compare::ValOrder::Greater);
            }
        }
        assert(sorted.push(x) =~= sorted.insert(pos, x));
    }
}

/// Sorts the projected rows by the sort keys with a stable insertion
/// sort; every key's column must exist among the projected headers.
pub fn sort_rows(
    selected_rows: &mut Vec<Vec<String>>,
    headers: &Vec<String>,
    criteras: &Vec<crate::order::OrderBy>,
) -> (r: Result<(), ErrorType>)
    ensures
        match r {
            Ok(()) => {
                &&& forall|j: int|
                    0 <= j < criteras@.len() ==> headers.deep_view().contains(
                        (#[trigger] criteras.deep_view()[j]).column,
                    )
                &&& final(selected_rows)@ == spec_sort_rows(
                    old(selected_rows)@,
                    criteras.deep_view(),
                    headers.deep_view(),
                )
                &&& final(selected_rows).deep_view().to_multiset() == old(
                    selected_rows,
                ).deep_view().to_multiset()
                &&& rows_sorted_by(
                    final(selected_rows)@,
                    criteras.deep_view(),
                    headers.deep_view(),
                )
            },
            Err(e) => {
                &&& final(selected_rows)@ == old(selected_rows)@
                &&& e is InvalidColumn
                &&& exists|j: int|
                    0 <= j < criteras@.len() && !headers.deep_view().contains(
                        (#[trigger] criteras.deep_view()[j]).column,
                    )
            },
        },
{
    let ghost cd = criteras.deep_view();
    let ghost hd = headers.deep_view();
    let ncrit = criteras.len();
    let mut ci: usize = 0;
    while ci < ncrit
        invariant
            0 <= ci <= ncrit,
            ncrit == criteras@.len(),
            cd == criteras.deep_view(),
            hd == headers.deep_view(),
            selected_rows@ == old(selected_rows)@,
            forall|j: int| 0 <= j < ci ==> hd.contains((#[trigger] cd[j]).column),
        decreases ncrit - ci,
    {
        if !contains_str(headers, criteras[ci].column.as_str()) {
            proof {
                assert(criteras@[ci as int]@ == cd[ci as int]);
            }
            let mut msg = String::from_str("Column '");
            msg.append(criteras[ci].column.as_str());
            msg.append("' not found in headers");
            return Err(ErrorType::InvalidColumn(msg));
        }
        proof {
            assert(criteras@[ci as int]@ == cd[ci as int]);
        }
        ci = ci + 1;
    }
    let ghost orig = selected_rows.deep_view();
    let ghost orig_v = selected_rows@;
    let mut out: Vec<Vec<String>> = Vec::new();
    let ghost mut done: int = 0;
    proof {
        broadcast use vstd::seq_lib::group_to_multiset_ensures;

        assert(out.deep_view().to_multiset().add(orig.to_multiset()) =~= orig.to_multiset()) by {
            assert(out.deep_view().to_multiset().len() == 0);
        }
        assert(selected_rows@ =~= orig_v.skip(0));
        assert(spec_sort_rows(orig_v.subrange(0, 0), cd, hd) =~= out@) by {
            assert(orig_v.subrange(0, 0) =~= Seq::<Vec<String>>::empty());
        }
    }
    while selected_rows.len() > 0
        invariant
            cd == criteras.deep_view(),
            hd == headers.deep_view(),
            0 <= done <= orig_v.len(),
            done + selected_rows@.len() == orig_v.len(),
            selected_rows@ == orig_v.skip(done),
            out@ == spec_sort_rows(orig_v.subrange(0, done), cd, hd),
            out.deep_view().to_multiset().add(selected_rows.deep_view().to_multiset())
                =~= orig.to_multiset(),
            rows_sorted_by(out@, cd, hd),
        decreases selected_rows@.len(),
    {
        let ghost rows_before = selected_rows.deep_view();
        let ghost rows_before_v = selected_rows@;
        let row = selected_rows.remove(0);
        proof {
            assert(row == orig_v[done]);
            assert(selected_rows@ =~= orig_v.skip(done + 1));
        }
        proof {
            broadcast use vstd::seq_lib::group_to_multiset_ensures;

            assert(selected_rows.deep_view() =~= rows_before.remove(0));
            assert(row.deep_view() == rows_before[0]);
            assert(rows_before.to_multiset() =~= selected_rows.deep_view().to_multiset().insert(
                row.deep_view(),
            ));
        }
        let pos = insert_pos(&out, &row, criteras, headers);
        let ghost out_before = out@;
        let ghost out_before_deep = out.deep_view();
        out.insert(pos, row);
        proof {
            lemma_insert_row_at_pos(out_before, row, cd, hd, pos as int);
            assert(orig_v.subrange(0, done + 1).drop_last() =~= orig_v.subrange(0, done));
            assert(orig_v.subrange(0, done + 1).last() == orig_v[done]);
            assert(out@ == spec_sort_rows(orig_v.subrange(0, done + 1), cd, hd));
            done = done + 1;
            assert(out.deep_view() =~= out_before_deep.insert(pos as int, row.deep_view()));
            lemma_insert_to_multiset(out_before_deep, pos as int, row.deep_view());
            assert(out.deep_view().to_multiset().add(selected_rows.deep_view().to_multiset())
                =~= orig.to_multiset());
            assert forall|i: int| 0 <= i < out@.len() - 1 implies #[trigger] spec_row_cmp(
                out@[i].deep_view(),
                out@[i + 1].deep_view(),
                cd,
                hd,
            ) != crate::compare::ValOrder::Greater by {
                if i + 1 < pos {
                    assert(out@[i] == out_before[i]);
                    assert(out@[i + 1] == out_before[i + 1]);
                    assert(spec_row_cmp(
                        out_before[i].deep_view(),
                        out_before[i + 1].deep_view(),
                        cd,
                        hd,
                    ) != crate::compare::ValOrder::Greater);
                } else if i + 1 == pos {
                    assert(out@[i] == out_before[i]);
                    assert(out@[i + 1] == row);
                    assert(spec_row_cmp(out_before[pos - 1].deep_view(), row.deep_view(), cd, hd)
                        != crate::compare::ValOrder::Greater);
                } else if i == pos {
                    assert(out@[i] == row);
                    assert(out@[i + 1] == out_before[i]);
                    assert(spec_row_cmp(out_before[i].deep_view(), row.deep_view(), cd, hd)
                        == crate::compare::ValOrder::Greater);
                    lemma_row_cmp_antisym(out_before[i].deep_view(), row.deep_view(), cd, hd);
                } else {
                    assert(out@[i] == out_before[i - 1]);
                    assert(out@[i + 1] == out_before[i]);
                    let j = i - 1;
                    assert(spec_row_cmp(
                        out_before[j].deep_view(),
                        out_before[j + 1].deep_view(),
                        cd,
                        hd,
                    ) != crate::compare::ValOrder::Greater);
                    assert(out_before[j + 1] == out_before[i]);
                }
            }
        }
    }
    proof {
        broadcast use vstd::seq_lib::group_to_multiset_ensures;

        assert(selected_rows.deep_view().to_multiset().len() == 0);
        assert(out.deep_view().to_multiset() =~= orig.to_multiset());
        assert(orig_v.subrange(0, done) =~= orig_v);
    }
    *selected_rows = out;
    Ok(())
}

/// Whether a requested column list is the single wildcard token.
pub open spec fn spec_wildcard(headers: Seq<Seq<char>>) -> bool {
    headers.len() == 1 && headers[0] == "*"@
}

/// The projected column list of a `SELECT` against one table: the
/// wildcard expands to the full header in its original order.
pub open spec fn spec_sel_of(th: Seq<Seq<char>>, req: Seq<Seq<char>>) -> Seq<Seq<char>> {
    if spec_wildcard(req) {
        th
    } else {
        req
    }
}

/// Validates the requested columns against the table's header and
/// returns the projected column list; the wildcard stands for the
/// whole header.
pub fn check_select_headers(table_header: &Vec<String>, headers: &Vec<String>) -> (r: Result<
    Vec<String>,
    ErrorType,
>)
    ensures
        match r {
            Ok(v) => v.deep_view() == spec_sel_of(table_header.deep_view(), headers.deep_view())
                && (spec_wildcard(headers.deep_view()) || forall|j: int|
                0 <= j < headers@.len() ==> table_header.deep_view().contains(
                    #[trigger] headers.deep_view()[j],
                )),
            Err(e) => !spec_wildcard(headers.deep_view()) && (exists|j: int|
                0 <= j < headers@.len() && !table_header.deep_view().contains(
                    #[trigger] headers.deep_view()[j],
                )) && e is InvalidColumn,
        },
{
    if headers.len() == 1 && str_eq(headers[0].as_str(), "*") {
        proof {
            assert(headers.deep_view()[0] == headers@[0]@);
        }
        let out = clone_strings(table_header);
        proof {
            assert(out.deep_view() =~~= table_header.deep_view());
        }
        return Ok(out);
    }
    proof {
        if headers@.len() == 1 {
            assert(headers.deep_view()[0] == headers@[0]@);
        }
    }
    let n = headers.len();
    let mut j: usize = 0;
    while j < n
        invariant
            0 <= j <= n,
            n == headers@.len(),
            !spec_wildcard(headers.deep_view()),
            forall|u: int| 0 <= u < j ==> table_header.deep_view().contains(
                #[trigger] headers.deep_view()[u],
            ),
        decreases n - j,
    {
        if !contains_str(table_header, headers[j].as_str()) {
            proof {
                assert(headers.deep_view()[j as int] == headers@[j as int]@);
            }
            let mut msg = String::from_str("Column to select '");
            msg.append(headers[j].as_str());
            msg.append("' not found in the table");
            return Err(ErrorType::InvalidColumn(msg));
        }
        proof {
            assert(headers.deep_view()[j as int] == headers@[j as int]@);
        }
        j = j + 1;
    }
    let out = clone_strings(headers);
    proof {
        assert(out.deep_view() =~~= headers.deep_view());
    }
    Ok(out)
}

/// One projected row: the row's value at each projected column.
pub open spec fn spec_project(
    th: Seq<Seq<char>>,
    line: Seq<char>,
    sel: Seq<Seq<char>>,
) -> Seq<Seq<char>> {
    Seq::new(
        sel.len(),
        |j: int|
            {
                let m = spec_row_map(th, line);
                if m.contains_key(sel[j]) {
                    m[sel[j]]
                } else {
                    Seq::empty()
                }
            },
    )
}

/// Projects one row to the requested columns, in requested order.
fn project_row(row: &ValueMap, sel: &Vec<String>) -> (r: Vec<String>)
    ensures
        r.deep_view() == Seq::new(
            sel.deep_view().len(),
            |j: int|
                if row@.contains_key(sel.deep_view()[j]) {
                    row@[sel.deep_view()[j]]
                } else {
                    Seq::<char>::empty()
                },
        ),
{
    let n = sel.len();
    let mut out: Vec<String> = Vec::new();
    let ghost want = Seq::new(
        sel.deep_view().len(),
        |j: int|
            if row@.contains_key(sel.deep_view()[j]) {
                row@[sel.deep_view()[j]]
            } else {
                Seq::<char>::empty()
            },
    );
    let mut j: usize = 0;
    while j < n
        invariant
            0 <= j <= n,
            n == sel@.len(),
            want == Seq::new(
                sel.deep_view().len(),
                |u: int|
                    if row@.contains_key(sel.deep_view()[u]) {
                        row@[sel.deep_view()[u]]
                    } else {
                        Seq::<char>::empty()
                    },
            ),
            out@.len() == j,
            forall|u: int| 0 <= u < j ==> (#[trigger] out@[u])@ == want[u],
        decreases n - j,
    {
        proof {
            assert(sel@[j as int]@ == sel.deep_view()[j as int]);
        }
        let value: String = match row.get(sel[j].as_str()) {
            Some(v) => v.clone(),
            None => String::new(),
        };
        out.push(value);
        j = j + 1;
    }
    proof {
        assert forall|u: int| 0 <= u < n implies out.deep_view()[u] == want[u] by {
            assert(out.deep_view()[u] == out@[u]@);
        }
        assert(out.deep_view() =~= want);
    }
    out
}

/// The rows a `SELECT` keeps from one table, projected, in scan
/// order.
pub open spec fn spec_select_rows(
    th: Seq<Seq<char>>,
    lines: Seq<Seq<char>>,
    sel: Seq<Seq<char>>,
    cond: Option<ConditionView>,
) -> Seq<Seq<Seq<char>>>
    decreases lines.len(),
{
    if lines.len() == 0 {
        Seq::empty()
    } else {
        let prev = spec_select_rows(th, lines.drop_last(), sel, cond);
        if spec_should_filter(cond, spec_row_map(th, lines.last())) {
            prev + seq![spec_project(th, lines.last(), sel)]
        } else {
            prev
        }
    }
}

/// The rendered lines of a sequence of rows, each comma-joined and
/// newline-terminated.
pub open spec fn spec_render_rows(rows: Seq<Seq<Seq<char>>>) -> Seq<char>
    decreases rows.len(),
{
    if rows.len() == 0 {
        Seq::empty()
    } else {
        spec_render_rows(rows.drop_last()) + spec_join_commas(rows.last()) + "\n"@
    }
}

/// One table's output block: the projected header line, then every
/// row.
pub open spec fn spec_render(sel: Seq<Seq<char>>, rows: Seq<Seq<Seq<char>>>) -> Seq<char> {
    spec_join_commas(sel) + "\n"@ + spec_render_rows(rows)
}

/// Renders the output block of one table.
pub fn get_select_output(select_headers: &Vec<String>, selected_rows: &Vec<Vec<String>>) -> (r:
    String)
    ensures
        r@ == spec_render(select_headers.deep_view(), selected_rows.deep_view()),
{
    let mut out = join_commas(select_headers);
    out.append("\n");
    let n = selected_rows.len();
    let mut j: usize = 0;
    while j < n
        invariant
            0 <= j <= n,
            n == selected_rows@.len(),
            out@ == spec_render(
                select_headers.deep_view(),
                selected_rows.deep_view().subrange(0, j as int),
            ),
        decreases n - j,
    {
        proof {
            assert(spec_render_rows(selected_rows.deep_view().subrange(0, 0)) =~= Seq::<
                char,
            >::empty());
        }
        let line = join_commas(&selected_rows[j]);
        out.append(line.as_str());
        out.append("\n");
        proof {
            let pre = selected_rows.deep_view().subrange(0, j as int);
            let cur = selected_rows.deep_view().subrange(0, j + 1);
            assert(cur.drop_last() =~= pre);
            assert(cur.last() == selected_rows.deep_view()[j as int]);
            assert(selected_rows@[j as int].deep_view() == selected_rows.deep_view()[j as int]);
            assert(out@ =~= spec_render(select_headers.deep_view(), cur));
        }
        j = j + 1;
    }
    proof {
        assert(selected_rows.deep_view().subrange(0, n as int) =~= selected_rows.deep_view());
        if n == 0 {
            assert(spec_render_rows(selected_rows.deep_view().subrange(0, 0)) =~= Seq::<
                char,
            >::empty());
            assert(out@ =~= spec_render(select_headers.deep_view(), selected_rows.deep_view()));
        }
    }
    out
}

/// Adjacent sortedness of projected row images under the sort keys.
pub open spec fn rows_sorted_by_v(
    rs: Seq<Seq<Seq<char>>>,
    crits: Seq<crate::order::OrderByView>,
    headers: Seq<Seq<char>>,
) -> bool {
    forall|i: int|
        0 <= i < rs.len() - 1 ==> #[trigger] spec_row_cmp(rs[i], rs[i + 1], crits, headers)
            != crate::compare::ValOrder::Greater
}

/// The view of a sequence of rows.
pub open spec fn rows_deep(rs: Seq<Vec<String>>) -> Seq<Seq<Seq<char>>> {
    Seq::new(rs.len(), |i: int| rs[i].deep_view())
}

/// `spec_insert_row_sorted`, over row images.
pub open spec fn spec_insert_row_sorted_v(
    sorted: Seq<Seq<Seq<char>>>,
    x: Seq<Seq<char>>,
    crits: Seq<crate::order::OrderByView>,
    headers: Seq<Seq<char>>,
) -> Seq<Seq<Seq<char>>>
    decreases sorted.len(),
{
    if sorted.len() == 0 {
        seq![x]
    } else if spec_row_cmp(sorted.last(), x, crits, headers) == crate::compare::ValOrder::Greater {
        spec_insert_row_sorted_v(sorted.drop_last(), x, crits, headers).push(sorted.last())
    } else {
        sorted.push(x)
    }
}

/// `spec_sort_rows`, over row images.
pub open spec fn spec_sort_rows_v(
    rows: Seq<Seq<Seq<char>>>,
    crits: Seq<crate::order::OrderByView>,
    headers: Seq<Seq<char>>,
) -> Seq<Seq<Seq<char>>>
    decreases rows.len(),
{
    if rows.len() == 0 {
        Seq::empty()
    } else {
        spec_insert_row_sorted_v(
            spec_sort_rows_v(rows.drop_last(), crits, headers),
            rows.last(),
            crits,
            headers,
        )
    }
}

proof fn lemma_insert_row_sorted_deep(
    sorted: Seq<Vec<String>>,
    x: Vec<String>,
    crits: Seq<crate::order::OrderByView>,
    headers: Seq<Seq<char>>,
)
    ensures
        rows_deep(spec_insert_row_sorted(sorted, x, crits, headers)) == spec_insert_row_sorted_v(
            rows_deep(sorted),
            x.deep_view(),
            crits,
            headers,
        ),
    decreases sorted.len(),
{
    if sorted.len() == 0 {
        assert(rows_deep(seq![x]) =~= seq![x.deep_view()]);
    } else {
        assert(rows_deep(sorted).last() == sorted.last().deep_view());
        if spec_row_cmp(sorted.last().deep_view(), x.deep_view(), crits, headers)
            == crate::compare::ValOrder::Greater {
            lemma_insert_row_sorted_deep(sorted.drop_last(), x, crits, headers);
            assert(rows_deep(sorted.drop_last()) =~= rows_deep(sorted).drop_last());
            assert(rows_deep(
                spec_insert_row_sorted(sorted.drop_last(), x, crits, headers).push(sorted.last()),
            ) =~= rows_deep(spec_insert_row_sorted(sorted.drop_last(), x, crits, headers)).push(
                sorted.last().deep_view(),
            ));
        } else {
            assert(rows_deep(sorted.push(x)) =~= rows_deep(sorted).push(x.deep_view()));
        }
    }
}

/// Sorting commutes with taking row images.
pub proof fn lemma_sort_rows_deep(
    rows: Seq<Vec<String>>,
    crits: Seq<crate::order::OrderByView>,
    headers: Seq<Seq<char>>,
)
    ensures
        rows_deep(spec_sort_rows(rows, crits, headers)) == spec_sort_rows_v(
            rows_deep(rows),
            crits,
            headers,
        ),
    decreases rows.len(),
{
    if rows.len() == 0 {
        assert(rows_deep(Seq::<Vec<String>>::empty()) =~= Seq::<Seq<Seq<char>>>::empty());
        assert(rows_deep(rows).len() == 0);
    } else {
        lemma_sort_rows_deep(rows.drop_last(), crits, headers);
        assert(rows_deep(rows.drop_last()) =~= rows_deep(rows).drop_last());
        assert(rows_deep(rows).last() == rows.last().deep_view());
        lemma_insert_row_sorted_deep(
            spec_sort_rows(rows.drop_last(), crits, headers),
            rows.last(),
            crits,
            headers,
        );
    }
}

/// Why a `SELECT` fails on one table, if it does: a requested column
/// or a sort column that the projection does not have.
pub open spec fn spec_select_err_table(
    tv: TableView,
    req: Seq<Seq<char>>,
    order: Option<Seq<crate::order::OrderByView>>,
) -> Option<ErrorKind> {
    if !spec_wildcard(req) && exists|j: int| 0 <= j < req.len() && !tv.header.contains(
        #[trigger] req[j],
    ) {
        Some(ErrorKind::Column)
    } else {
        let sel = spec_sel_of(tv.header, req);
        match order {
            Some(crits) => if exists|j: int|
                0 <= j < crits.len() && !sel.contains((#[trigger] crits[j]).column) {
                Some(ErrorKind::Column)
            } else {
                None
            },
            None => None,
        }
    }
}

/// The first error a `SELECT` meets across the resolved table list.
pub open spec fn spec_select_run_err(
    sv: StoreView,
    names: Seq<Seq<char>>,
    req: Seq<Seq<char>>,
    order: Option<Seq<crate::order::OrderByView>>,
) -> Option<ErrorKind>
    decreases names.len(),
{
    if names.len() == 0 {
        None
    } else {
        match store_find(sv, names[0]) {
            None => Some(ErrorKind::Table),
            Some(i) => if 0 <= i < sv.len() {
                match spec_select_err_table(sv[i].1, req, order) {
                    Some(k) => Some(k),
                    None => spec_select_run_err(sv, names.skip(1), req, order),
                }
            } else {
                Some(ErrorKind::Table)
            },
        }
    }
}

/// One table's block: with no `ORDER` clause it renders the kept
/// rows in scan order; with one, it renders their stable insertion
/// sort under the keys, which is in particular sorted by them.
pub open spec fn spec_select_block(
    tv: TableView,
    req: Seq<Seq<char>>,
    cond: Option<ConditionView>,
    order: Option<Seq<crate::order::OrderByView>>,
    block: Seq<char>,
) -> bool {
    let sel = spec_sel_of(tv.header, req);
    let rows0 = spec_select_rows(tv.header, tv.lines, sel, cond);
    match order {
        None => block == spec_render(sel, rows0),
        Some(crits) => {
            let rs = spec_sort_rows_v(rows0, crits, sel);
            &&& block == spec_render(sel, rs)
            &&& rows_sorted_by_v(rs, crits, sel)
        },
    }
}

/// The whole `SELECT` output: each table's block, concatenated in
/// table-list order.
pub open spec fn spec_select_output(
    sv: StoreView,
    names: Seq<Seq<char>>,
    req: Seq<Seq<char>>,
    cond: Option<ConditionView>,
    order: Option<Seq<crate::order::OrderByView>>,
    out: Seq<char>,
) -> bool
    decreases names.len(),
{
    if names.len() == 0 {
        out == Seq::<char>::empty()
    } else {
        match store_find(sv, names[0]) {
            None => false,
            Some(i) => 0 <= i < sv.len() && exists|block: Seq<char>, rest: Seq<char>|
                {
                    &&& out == #[trigger] (block + rest)
                    &&& spec_select_block(sv[i].1, req, cond, order, block)
                    &&& spec_select_output(sv, names.skip(1), req, cond, order, rest)
                },
        }
    }
}

/// Extends a valid output by one more table's block.
proof fn lemma_select_output_snoc(
    sv: StoreView,
    names: Seq<Seq<char>>,
    req: Seq<Seq<char>>,
    cond: Option<ConditionView>,
    order: Option<Seq<crate::order::OrderByView>>,
    out: Seq<char>,
    name: Seq<char>,
    block: Seq<char>,
)
    requires
        spec_select_output(sv, names, req, cond, order, out),
        store_find(sv, name) matches Some(i) && 0 <= i < sv.len() && spec_select_block(
            sv[i].1,
            req,
            cond,
            order,
            block,
        ),
    ensures
        spec_select_output(sv, names.push(name), req, cond, order, out + block),
    decreases names.len(),
{
    let pushed = names.push(name);
    assert(pushed[0] == if names.len() == 0 {
        name
    } else {
        names[0]
    });
    if names.len() == 0 {
        assert(pushed.skip(1) =~= Seq::<Seq<char>>::empty());
        let i = store_find(sv, name)->Some_0;
        assert(out + block =~= block + Seq::<char>::empty()) by {
            assert(out =~= Seq::<char>::empty());
        }
        assert(spec_select_output(sv, pushed.skip(1), req, cond, order, Seq::<char>::empty()));
        assert(out + block == (block + Seq::<char>::empty()));
        assert(spec_select_block(sv[i].1, req, cond, order, block));
    } else {
        let (block0, rest0) = choose|block0: Seq<char>, rest0: Seq<char>|
            {
                &&& out == #[trigger] (block0 + rest0)
                &&& spec_select_block(sv[store_find(sv, names[0])->Some_0].1, req, cond, order, block0)
                &&& spec_select_output(sv, names.skip(1), req, cond, order, rest0)
            };
        lemma_select_output_snoc(sv, names.skip(1), req, cond, order, rest0, name, block);
        assert(pushed.skip(1) =~= names.skip(1).push(name));
        assert(out + block =~= block0 + (rest0 + block));
        assert((out + block) == (block0 + (rest0 + block)));
    }
}

/// Runs a `SELECT` over every target table and returns the
/// concatenated output blocks: per table the projected header line,
/// then every row the filter keeps, sorted by the `ORDER` keys when
/// given.
pub fn select(
    headers: &Vec<String>,
    tables: &Vec<String>,
    where_st: &Option<Condition>,
    order: &Option<Vec<crate::order::OrderBy>>,
    store: &Store,
) -> (r: Result<Option<String>, ErrorType>)
    ensures
        match spec_table_list(tables.deep_view(), store@) {
            None => (r matches Err(e) && e is InvalidTable),
            Some(names) => match spec_select_run_err(
                store@,
                names,
                headers.deep_view(),
                crate::command_types::order_opt_view(order),
            ) {
                Some(k) => (r matches Err(e) && e.kind() == k),
                None => (r matches Ok(o) && o matches Some(out) && spec_select_output(
                    store@,
                    names,
                    headers.deep_view(),
                    cond_opt_view(where_st),
                    crate::command_types::order_opt_view(order),
                    out@,
                )),
            },
        },
{
    let ghost req = headers.deep_view();
    let ghost cnd = cond_opt_view(where_st);
    let ghost ord = crate::command_types::order_opt_view(order);
    let table_list = match create_table_list(tables, store) {
        Ok(v) => v,
        Err(e) => {
            return Err(e);
        },
    };
    let ghost names = table_list.deep_view();
    let n = table_list.len();
    let mut output = String::new();
    let mut k: usize = 0;
    proof {
        assert(names.skip(0) =~= names);
        assert(names.subrange(0, 0) =~= Seq::<Seq<char>>::empty());
        assert(output@ =~= Seq::<char>::empty());
    }
    while k < n
        invariant
            0 <= k <= n,
            n == table_list@.len(),
            req == headers.deep_view(),
            cnd == cond_opt_view(where_st),
            ord == crate::command_types::order_opt_view(order),
            names == table_list.deep_view(),
            spec_table_list(tables.deep_view(), store@) == Some(names),
            spec_select_run_err(store@, names, req, ord) == spec_select_run_err(
                store@,
                names.skip(k as int),
                req,
                ord,
            ),
            spec_select_output(store@, names.subrange(0, k as int), req, cnd, ord, output@),
        decreases n - k,
    {
        let ghost rem = names.skip(k as int);
        proof {
            assert(rem[0] == names[k as int]);
            assert(table_list@[k as int]@ == names[k as int]);
            assert(rem.skip(1) =~= names.skip(k + 1));
        }
        let i = match store.find_table(table_list[k].as_str()) {
            Some(i) => i,
            None => {
                return Err(ErrorType::InvalidTable(String::from_str("Error opening table")));
            },
        };
        let t = store.table_at(i);
        let ghost tv = store@[i as int].1;
        let select_headers = match check_select_headers(&t.header, headers) {
            Ok(v) => v,
            Err(e) => {
                return Err(e);
            },
        };
        let ghost sel = spec_sel_of(tv.header, req);
        let ghost rows0 = spec_select_rows(tv.header, tv.lines, sel, cnd);
        let m = t.lines.len();
        let mut selected_rows: Vec<Vec<String>> = Vec::new();
        let mut j: usize = 0;
        proof {
            assert(tv.lines.subrange(0, 0) =~= Seq::<Seq<char>>::empty());
            assert(selected_rows.deep_view() =~= spec_select_rows(
                tv.header,
                tv.lines.subrange(0, 0),
                sel,
                cnd,
            ));
        }
        while j < m
            invariant
                0 <= j <= m,
                m == t.lines@.len(),
                tv == t@,
                cnd == cond_opt_view(where_st),
                sel == select_headers.deep_view(),
                selected_rows.deep_view() == spec_select_rows(
                    tv.header,
                    tv.lines.subrange(0, j as int),
                    sel,
                    cnd,
                ),
            decreases m - j,
        {
            let line = &t.lines[j];
            proof {
                assert(t.lines@[j as int]@ == tv.lines[j as int]);
            }
            let row = create_row_values_map(&t.header, line.as_str());
            let ghost before = selected_rows.deep_view();
            proof {
                let pre = tv.lines.subrange(0, j as int);
                let cur = tv.lines.subrange(0, j + 1);
                assert(cur.drop_last() =~= pre);
                assert(cur.last() == tv.lines[j as int]);
            }
            if should_filter(where_st, &row) {
                let projected = project_row(&row, &select_headers);
                proof {
                    assert(projected.deep_view() =~= spec_project(
                        tv.header,
                        tv.lines[j as int],
                        sel,
                    ));
                }
                selected_rows.push(projected);
                proof {
                    assert(selected_rows.deep_view() =~= before + seq![
                        spec_project(tv.header, tv.lines[j as int], sel),
                    ]);
                }
            }
            j = j + 1;
        }
        proof {
            assert(tv.lines.subrange(0, m as int) =~= tv.lines);
        }
        let ghost presort = selected_rows.deep_view();
        let ghost presort_v = selected_rows@;
        match order {
            Some(criteras) => {
                match sort_rows(&mut selected_rows, &select_headers, criteras) {
                    Ok(()) => {},
                    Err(e) => {
                        proof {
                            let jw = choose|j: int|
                                0 <= j < criteras@.len() && !select_headers.deep_view().contains(
                                    (#[trigger] criteras.deep_view()[j]).column,
                                );
                            assert(ord == Some(criteras.deep_view()));
                            assert(!(
                                !spec_wildcard(req) && exists|j: int|
                                    0 <= j < req.len() && !tv.header.contains(#[trigger] req[j])
                            ));
                            assert(0 <= jw < criteras.deep_view().len() && !sel.contains(
                                (criteras.deep_view()[jw]).column,
                            ));
                            assert(0 <= jw < (ord->Some_0).len());
                            assert(!spec_sel_of(tv.header, req).contains(
                                ((ord->Some_0)[jw]).column,
                            ));
                            assert(spec_select_err_table(tv, req, ord) == Some(ErrorKind::Column));
                        }
                        return Err(e);
                    },
                }
            },
            None => {},
        }
        let block = get_select_output(&select_headers, &selected_rows);
        let ghost out_before = output@;
        output.append(block.as_str());
        proof {
            assert(spec_select_err_table(tv, req, ord) is None);
            assert(spec_select_block(tv, req, cnd, ord, block@)) by {
                match ord {
                    None => {
                        assert(selected_rows.deep_view() == rows0);
                    },
                    Some(crits) => {
                        let rs = selected_rows.deep_view();
                        assert(selected_rows@ == spec_sort_rows(presort_v, crits, sel));
                        lemma_sort_rows_deep(presort_v, crits, sel);
                        assert(rows_deep(selected_rows@) =~= selected_rows.deep_view());
                        assert(rows_deep(presort_v) =~= presort);
                        assert(presort == rows0);
                        assert(rs == spec_sort_rows_v(rows0, crits, sel));
                        assert(rows_sorted_by_v(rs, crits, sel)) by {
                            assert forall|u: int| 0 <= u < rs.len() - 1 implies #[trigger]
                                spec_row_cmp(rs[u], rs[u + 1], crits, sel)
                                != crate::compare::ValOrder::Greater by {
                                assert(selected_rows@[u].deep_view() == rs[u]);
                                assert(selected_rows@[u + 1].deep_view() == rs[u + 1]);
                                assert(spec_row_cmp(
                                    selected_rows@[u].deep_view(),
                                    selected_rows@[u + 1].deep_view(),
                                    crits,
                                    sel,
                                ) != crate::compare::ValOrder::Greater);
                            }
                        }
                        assert(block@ == spec_render(sel, rs));
                    },
                }
            }
            lemma_select_output_snoc(
                store@,
                names.subrange(0, k as int),
                req,
                cnd,
                ord,
                out_before,
                names[k as int],
                block@,
            );
            assert(names.subrange(0, k as int).push(names[k as int]) =~= names.subrange(0, k + 1));
        }
        k = k + 1;
    }
    proof {
        assert(names.skip(n as int) =~= Seq::<Seq<char>>::empty());
        assert(names.subrange(0, n as int) =~= names);
    }
    Ok(Some(output))
}

/// Runs one parsed command against the store: write commands mutate
/// their target tables and yield no payload; `SELECT` leaves the
/// store untouched and yields its textual output.
pub fn execute(command: &Commands, store: &mut Store) -> (r: Result<Option<String>, ErrorType>)
    ensures
        match command@ {
            crate::command_types::CommandsView::Insert { tables, headers, values } => match
                spec_table_list(tables, old(store)@) {
                None => final(store)@ == old(store)@ && (r matches Err(e) && e is InvalidTable),
                Some(names) => {
                    let pr = spec_run_insert(old(store)@, names, headers, values);
                    &&& final(store)@ == pr.0
                    &&& match pr.1 {
                        None => r matches Ok(o) && o is None,
                        Some(k) => r matches Err(e) && e.kind() == k,
                    }
                },
            },
            crate::command_types::CommandsView::Update { tables, updates, where_st } => match
                spec_table_list(tables, old(store)@) {
                None => final(store)@ == old(store)@ && (r matches Err(e) && e is InvalidTable),
                Some(names) => {
                    let pr = spec_run_update(old(store)@, names, updates, where_st);
                    &&& final(store)@ == pr.0
                    &&& match pr.1 {
                        None => r matches Ok(o) && o is None,
                        Some(k) => r matches Err(e) && e.kind() == k,
                    }
                },
            },
            crate::command_types::CommandsView::Delete { tables, where_st } => match
                spec_table_list(tables, old(store)@) {
                None => final(store)@ == old(store)@ && (r matches Err(e) && e is InvalidTable),
                Some(names) => {
                    let pr = spec_run_delete(old(store)@, names, where_st);
                    &&& final(store)@ == pr.0
                    &&& match pr.1 {
                        None => r matches Ok(o) && o is None,
                        Some(k) => r matches Err(e) && e.kind() == k,
                    }
                },
            },
            crate::command_types::CommandsView::Select { headers, tables, where_st, order } => {
                &&& final(store)@ == old(store)@
                &&& match spec_table_list(tables, old(store)@) {
                    None => (r matches Err(e) && e is InvalidTable),
                    Some(names) => match spec_select_run_err(old(store)@, names, headers, order) {
                        Some(k) => (r matches Err(e) && e.kind() == k),
                        None => (r matches Ok(o) && o matches Some(out) && spec_select_output(
                            old(store)@,
                            names,
                            headers,
                            where_st,
                            order,
                            out@,
                        )),
                    },
                }
            },
        },
{
    match command {
        Commands::Insert { tables, headers, values } => insert(tables, headers, values, store),
        Commands::Update { tables, updates, where_st } => update(tables, updates, where_st, store),
        Commands::Delete { tables, where_st } => delete(tables, where_st, store),
        Commands::Select { headers, tables, where_st, order } => select(
            headers,
            tables,
            where_st,
            order,
            store,
        ),
    }
}

} // verus!
