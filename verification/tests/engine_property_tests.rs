//! Scenario tests for the engine's documented behaviours: stable
//! reparsing, explicit-versus-positional inserts, the uniform
//! absent-filter rule, multi-key ordering, the numeric-or-text
//! comparison policy, and wildcard resolution over an empty store.

use sql_rustico::command_types::Commands;
use sql_rustico::commands::{delete, execute, insert, select, update};
use sql_rustico::condition::{ComparisonOp, Condition};
use sql_rustico::errors::ErrorType;
use sql_rustico::parser::parse_query;
use sql_rustico::table::{Store, Table};
use sql_rustico::value_map::ValueMap;

fn make_table(headers: &[&str], rows: &[&[&str]]) -> Table {
    Table {
        header: headers.iter().map(|h| h.to_string()).collect(),
        lines: rows.iter().map(|r| r.join(",")).collect(),
    }
}

fn table_lines(store: &Store, name: &str) -> Vec<String> {
    let i = store.find_table(name).expect("table not found");
    store.table_at(i).lines.clone()
}

fn strings(items: &[&str]) -> Vec<String> {
    items.iter().map(|s| s.to_string()).collect()
}

/// Reserializing a parsed SELECT's structural fields and parsing
/// again gives the same command.
#[test]
fn reparse_select_is_stable() {
    let text = "SELECT id, name FROM people WHERE id >= 2 ORDER BY name DESC;";
    let first = parse_query(&mut text.to_string()).expect("parse failed");
    let (headers, tables) = match &first {
        Commands::Select {
            headers, tables, ..
        } => (headers.clone(), tables.clone()),
        _ => panic!("Expected a Select command"),
    };
    let rebuilt = format!(
        "SELECT {} FROM {} WHERE id >= 2 ORDER BY name DESC;",
        headers.join(", "),
        tables.join(", "),
    );
    let second = parse_query(&mut rebuilt.clone()).expect("reparse failed");
    match (&first, &second) {
        (
            Commands::Select {
                headers: h1,
                tables: t1,
                where_st: w1,
                order: o1,
            },
            Commands::Select {
                headers: h2,
                tables: t2,
                where_st: w2,
                order: o2,
            },
        ) => {
            assert_eq!(h1, h2);
            assert_eq!(t1, t2);
            assert_eq!(w1.is_some(), w2.is_some());
            let (v1, v2) = (o1.as_ref().unwrap(), o2.as_ref().unwrap());
            assert_eq!(v1.len(), v2.len());
            assert_eq!(v1[0].column, v2[0].column);
        },
        _ => panic!("Expected two Select commands"),
    }
}

/// Reserializing a parsed INSERT's structural fields and parsing
/// again gives the same command.
#[test]
fn reparse_insert_is_stable() {
    let text = "INSERT INTO people (id, name) VALUES (7, 'Rita');";
    let first = parse_query(&mut text.to_string()).expect("parse failed");
    let (tables, headers, values) = match &first {
        Commands::Insert {
            tables,
            headers,
            values,
        } => (tables.clone(), headers.clone(), values.clone()),
        _ => panic!("Expected an Insert command"),
    };
    let rebuilt = format!(
        "INSERT INTO {} ({}) VALUES ({});",
        tables.join(", "),
        headers.join(", "),
        values.join(", "),
    );
    let second = parse_query(&mut rebuilt.clone()).expect("reparse failed");
    match second {
        Commands::Insert {
            tables: t2,
            headers: h2,
            values: v2,
        } => {
            assert_eq!(tables, t2);
            assert_eq!(headers, h2);
            assert_eq!(values, v2);
        },
        _ => panic!("Expected an Insert command"),
    }
}

/// An insert with an explicit column list and a positional insert of
/// the same effective values append identical rows.
#[test]
fn explicit_and_positional_insert_agree() {
    let mut store_a = Store::new();
    store_a.insert_table("t".to_string(), make_table(&["id", "name", "age"], &[]));
    let mut store_b = Store::new();
    store_b.insert_table("t".to_string(), make_table(&["id", "name", "age"], &[]));

    let tables = strings(&["t"]);
    let values = strings(&["9", "Iris", "30"]);

    let explicit = strings(&["id", "name", "age"]);
    insert(&tables, &explicit, &values, &mut store_a).expect("insert failed");
    insert(&tables, &Vec::new(), &values, &mut store_b).expect("insert failed");

    assert_eq!(table_lines(&store_a, "t"), table_lines(&store_b, "t"));
    assert_eq!(table_lines(&store_a, "t"), vec!["9,Iris,30"]);
}

/// More values than columns is a column error whatever the values
/// are.
#[test]
fn too_many_values_is_a_column_error() {
    let mut store = Store::new();
    store.insert_table("t".to_string(), make_table(&["only"], &[]));

    let tables = strings(&["t"]);
    for values in [strings(&["a", "b"]), strings(&["", ""]), strings(&["1", "2", "3"])] {
        let r = insert(&tables, &Vec::new(), &values, &mut store);
        assert!(matches!(r, Err(ErrorType::InvalidColumn(_))));
    }
    assert_eq!(table_lines(&store, "t"), Vec::<String>::new());
}

/// A DELETE with no filter removes what a tautological filter
/// removes, and an UPDATE with no filter rewrites what a
/// tautological filter rewrites.
#[test]
fn absent_filter_acts_like_always_true() {
    let rows: &[&[&str]] = &[&["1", "x"], &["2", "y"]];
    let tautology = Some(Condition::Or(
        Box::new(Condition::Comparison(
            "id".to_string(),
            ComparisonOp::Eq,
            "1".to_string(),
        )),
        Box::new(Condition::Not(Box::new(Condition::Comparison(
            "id".to_string(),
            ComparisonOp::Eq,
            "1".to_string(),
        )))),
    ));
    let tables = strings(&["t"]);

    let mut store_none = Store::new();
    store_none.insert_table("t".to_string(), make_table(&["id", "v"], rows));
    let mut store_taut = Store::new();
    store_taut.insert_table("t".to_string(), make_table(&["id", "v"], rows));
    delete(&tables, &None, &mut store_none).expect("delete failed");
    delete(&tables, &tautology, &mut store_taut).expect("delete failed");
    assert_eq!(table_lines(&store_none, "t"), table_lines(&store_taut, "t"));
    assert_eq!(table_lines(&store_none, "t"), Vec::<String>::new());

    let mut updates = ValueMap::new();
    updates.insert("v".to_string(), "z".to_string());
    let mut store_none = Store::new();
    store_none.insert_table("t".to_string(), make_table(&["id", "v"], rows));
    let mut store_taut = Store::new();
    store_taut.insert_table("t".to_string(), make_table(&["id", "v"], rows));
    update(&tables, &updates, &None, &mut store_none).expect("update failed");
    update(&tables, &updates, &tautology, &mut store_taut).expect("update failed");
    assert_eq!(table_lines(&store_none, "t"), table_lines(&store_taut, "t"));
    assert_eq!(table_lines(&store_none, "t"), vec!["1,z", "2,z"]);
}

/// A filter matching no row leaves the table as it was.
#[test]
fn no_match_leaves_table_unchanged() {
    let rows: &[&[&str]] = &[&["1", "x"], &["2", "y"]];
    let impossible = Some(Condition::Comparison(
        "id".to_string(),
        ComparisonOp::Eq,
        "none".to_string(),
    ));
    let tables = strings(&["t"]);

    let mut store = Store::new();
    store.insert_table("t".to_string(), make_table(&["id", "v"], rows));
    delete(&tables, &impossible, &mut store).expect("delete failed");
    assert_eq!(table_lines(&store, "t"), vec!["1,x", "2,y"]);

    let mut updates = ValueMap::new();
    updates.insert("v".to_string(), "z".to_string());
    update(&tables, &updates, &impossible, &mut store).expect("update failed");
    assert_eq!(table_lines(&store, "t"), vec!["1,x", "2,y"]);
}

/// Under `ORDER BY k1 ASC, k2 DESC`, the first key never decreases
/// and the second never increases within a run of equal first keys.
#[test]
fn two_key_order_holds_on_output() {
    let mut store = Store::new();
    store.insert_table(
        "t".to_string(),
        make_table(
            &["a", "b"],
            &[
                &["2", "1"],
                &["1", "9"],
                &["2", "10"],
                &["1", "2"],
                &["10", "5"],
            ],
        ),
    );
    let command = parse_query(&mut "SELECT a, b FROM t ORDER BY a ASC, b DESC;".to_string())
        .expect("parse failed");
    let out = execute(&command, &mut store).expect("execute failed").expect("no output");
    // numeric order on both keys: a rises, b falls inside equal a
    assert_eq!(out, "a,b\n1,9\n1,2\n2,10\n2,1\n10,5\n");
}

/// Comparing "9" and "10" numerically and as text under the same
/// operator.
#[test]
fn numeric_and_text_comparison_differ() {
    let mut row = ValueMap::new();
    row.insert("v".to_string(), "9".to_string());

    // both sides parse as integers: 9 < 10 numerically
    let lt = Condition::Comparison("v".to_string(), ComparisonOp::Lt, "10".to_string());
    assert!(lt.evaluate(&row));

    // one side fails integer parsing: plain text order decides, and
    // "b9" comes after "a10"
    let mut row = ValueMap::new();
    row.insert("v".to_string(), "b9".to_string());
    let lt = Condition::Comparison("v".to_string(), ComparisonOp::Lt, "a10".to_string());
    assert!(!lt.evaluate(&row));
    let gt = Condition::Comparison("v".to_string(), ComparisonOp::Gt, "a10".to_string());
    assert!(gt.evaluate(&row));
}

/// The worked example: deleting one row, selecting in descending
/// order, updating a field and reading it back.
#[test]
fn worked_example_runs_as_documented() {
    let rows: &[&[&str]] = &[&["1", "Ana"], &["2", "Beto"]];

    // SELECT * FROM t ORDER BY id DESC; on the initial table
    let mut store = Store::new();
    store.insert_table("t".to_string(), make_table(&["id", "name"], rows));
    let command = parse_query(&mut "SELECT * FROM t ORDER BY id DESC;".to_string())
        .expect("parse failed");
    let out = execute(&command, &mut store).expect("execute failed").expect("no output");
    assert_eq!(out, "id,name\n2,Beto\n1,Ana\n");

    // DELETE FROM t WHERE id = 1; leaves exactly (2,Beto)
    let command = parse_query(&mut "DELETE FROM t WHERE id = 1;".to_string())
        .expect("parse failed");
    execute(&command, &mut store).expect("execute failed");
    assert_eq!(table_lines(&store, "t"), vec!["2,Beto"]);

    // UPDATE then SELECT one column
    let command = parse_query(&mut "UPDATE t SET name='Zoe' WHERE id=2;".to_string())
        .expect("parse failed");
    execute(&command, &mut store).expect("execute failed");
    let command = parse_query(&mut "SELECT name FROM t WHERE id=2;".to_string())
        .expect("parse failed");
    let out = execute(&command, &mut store).expect("execute failed").expect("no output");
    assert_eq!(out, "name\nZoe\n");
}

/// Wildcard table selection against a store with no tables fails
/// with a table error, for reads and writes alike.
#[test]
fn wildcard_over_empty_store_is_a_table_error() {
    let mut store = Store::new();

    let command = parse_query(&mut "SELECT * FROM *;".to_string()).expect("parse failed");
    let r = execute(&command, &mut store);
    assert!(matches!(r, Err(ErrorType::InvalidTable(_))));

    let command = parse_query(&mut "INSERT INTO * VALUES (1);".to_string()).expect("parse failed");
    let r = execute(&command, &mut store);
    assert!(matches!(r, Err(ErrorType::InvalidTable(_))));
}

/// Unquoted values, quoted values with embedded spaces, and the
/// appended terminator all tokenize as documented.
#[test]
fn quoted_values_keep_their_spaces() {
    let mut store = Store::new();
    store.insert_table("t".to_string(), make_table(&["id", "name"], &[]));
    let command = parse_query(&mut "INSERT INTO t VALUES (1, 'Ana Maria')".to_string())
        .expect("parse failed");
    execute(&command, &mut store).expect("execute failed");
    assert_eq!(table_lines(&store, "t"), vec!["1,Ana Maria"]);

    let command = parse_query(&mut "SELECT name FROM t WHERE name = 'Ana Maria';".to_string())
        .expect("parse failed");
    let out = execute(&command, &mut store).expect("execute failed").expect("no output");
    assert_eq!(out, "name\nAna Maria\n");
}

/// The statement verb is recognized whatever its ASCII case, while
/// the other keywords stay case-sensitive.
#[test]
fn verb_is_case_insensitive() {
    let mut store = Store::new();
    store.insert_table("t".to_string(), make_table(&["id"], &[&["1"]]));
    let command = parse_query(&mut "select id FROM t;".to_string()).expect("parse failed");
    let out = execute(&command, &mut store).expect("execute failed").expect("no output");
    assert_eq!(out, "id\n1\n");

    assert!(parse_query(&mut "SELECT id from t;".to_string()).is_err());
}

/// A value outside the 32-bit signed range falls back to plain-text
/// comparison.
#[test]
fn out_of_range_numbers_compare_as_text() {
    let mut row = ValueMap::new();
    row.insert("v".to_string(), "2147483648".to_string());

    // numerically 2147483648 > 9, but the left side overflows, so
    // text order decides and '2' < '9'
    let lt = Condition::Comparison("v".to_string(), ComparisonOp::Lt, "9".to_string());
    assert!(lt.evaluate(&row));

    // both sides in range compare numerically
    let mut row = ValueMap::new();
    row.insert("v".to_string(), "2147483647".to_string());
    let gt = Condition::Comparison("v".to_string(), ComparisonOp::Gt, "9".to_string());
    assert!(gt.evaluate(&row));
}

/// An empty parenthesized list holds one empty value.
#[test]
fn empty_values_list_inserts_one_empty_field() {
    let mut store = Store::new();
    store.insert_table("t".to_string(), make_table(&["a", "b"], &[]));
    let command = parse_query(&mut "INSERT INTO t VALUES ();".to_string()).expect("parse failed");
    execute(&command, &mut store).expect("execute failed");
    assert_eq!(table_lines(&store, "t"), vec![","]);
}

/// With a duplicated explicit column, the later value wins, placed at
/// the column's last header position.
#[test]
fn duplicate_insert_column_keeps_last_value() {
    let mut store = Store::new();
    store.insert_table("t".to_string(), make_table(&["a", "b"], &[]));
    let tables = strings(&["t"]);
    let headers = strings(&["a", "a"]);
    let values = strings(&["1", "2"]);
    insert(&tables, &headers, &values, &mut store).expect("insert failed");
    assert_eq!(table_lines(&store, "t"), vec!["2,"]);
}

/// An explicitly empty assignment value is kept, distinct from no
/// assignment at all.
#[test]
fn empty_assignment_value_clears_the_field() {
    let mut store = Store::new();
    store.insert_table("t".to_string(), make_table(&["id", "name"], &[&["1", "Ana"]]));
    let command = parse_query(&mut "UPDATE t SET name = WHERE id = 1;".to_string())
        .expect("parse failed");
    execute(&command, &mut store).expect("execute failed");
    assert_eq!(table_lines(&store, "t"), vec!["1,"]);
}

/// One statement can target several tables, executed independently in
/// list order.
#[test]
fn multi_table_statement_reaches_every_table() {
    let mut store = Store::new();
    store.insert_table("t1".to_string(), make_table(&["id"], &[]));
    store.insert_table("t2".to_string(), make_table(&["id"], &[]));

    let command = parse_query(&mut "INSERT INTO t1, t2 VALUES (7);".to_string())
        .expect("parse failed");
    execute(&command, &mut store).expect("execute failed");
    assert_eq!(table_lines(&store, "t1"), vec!["7"]);
    assert_eq!(table_lines(&store, "t2"), vec!["7"]);

    let command = parse_query(&mut "SELECT * FROM t1, t2;".to_string()).expect("parse failed");
    let out = execute(&command, &mut store).expect("execute failed").expect("no output");
    assert_eq!(out, "id\n7\nid\n7\n");
}

/// A table failing mid-statement leaves the earlier tables' changes
/// in place.
#[test]
fn earlier_tables_keep_changes_when_a_later_one_fails() {
    let mut store = Store::new();
    store.insert_table("t1".to_string(), make_table(&["id"], &[]));

    let command = parse_query(&mut "INSERT INTO t1, missing VALUES (7);".to_string())
        .expect("parse failed");
    let r = execute(&command, &mut store);
    assert!(matches!(r, Err(ErrorType::InvalidTable(_))));
    assert_eq!(table_lines(&store, "t1"), vec!["7"]);
}
