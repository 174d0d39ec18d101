use sql_rustico::commands::{delete, insert, select, update};
use sql_rustico::condition::{ComparisonOp, Condition};
use sql_rustico::errors::ErrorType;
use sql_rustico::order::{Direction, OrderBy};
use sql_rustico::table::{Store, Table};
use sql_rustico::value_map::ValueMap;

fn make_table(headers: &[&str], rows: &[&[&str]]) -> Table {
    Table {
        header: headers.iter().map(|h| h.to_string()).collect(),
        lines: rows.iter().map(|r| r.join(",")).collect(),
    }
}

fn table_lines(store: &Store, name: &str) -> Vec<String> {
    let i = store.find_table(name).expect("table not found");
    store.table_at(i).lines.clone()
}

fn strings(items: &[&str]) -> Vec<String> {
    items.iter().map(|s| s.to_string()).collect()
}

#[test]
fn test_insert_single_table() {
    let mut store = Store::new();
    store.insert_table(
        "test_table".to_string(),
        make_table(&["id", "nombre"], &[]),
    );

    let tables = strings(&["test_table"]);
    let headers = strings(&["id", "nombre"]);
    let values = strings(&["1", "Juan"]);
    let insert_result = insert(&tables, &headers, &values, &mut store);

    assert!(insert_result.is_ok(), "Insert failed");
    assert_eq!(table_lines(&store, "test_table"), vec!["1,Juan"]);
}

#[test]
fn test_insert_multiple_tables() {
    let mut store = Store::new();
    store.insert_table(
        "test_table_1".to_string(),
        make_table(&["id", "nombre"], &[]),
    );
    store.insert_table(
        "test_table_2".to_string(),
        make_table(&["id", "nombre"], &[]),
    );

    let tables = strings(&["test_table_1", "test_table_2"]);
    let headers = strings(&["id", "nombre"]);
    let values = strings(&["2", "Maria"]);
    let insert_result = insert(&tables, &headers, &values, &mut store);

    assert!(insert_result.is_ok(), "Insert failed");
    assert_eq!(table_lines(&store, "test_table_1"), vec!["2,Maria"]);
    assert_eq!(table_lines(&store, "test_table_2"), vec!["2,Maria"]);
}

#[test]
fn test_insert_fails_with_missing_table() {
    let mut store = Store::new();

    let tables = strings(&["non_existent_table"]);
    let headers = strings(&["id", "nombre"]);
    let values = strings(&["3", "Bob"]);
    let insert_result = insert(&tables, &headers, &values, &mut store);

    assert!(insert_result.is_err());
    if let Err(ErrorType::InvalidTable(_)) = insert_result {
        // expected error
    } else {
        panic!("Unexpected error type");
    }
}

#[test]
fn test_insert_with_fewer_values() {
    let mut store = Store::new();
    store.insert_table(
        "test_table".to_string(),
        make_table(&["nombre", "age"], &[]),
    );

    let tables = strings(&["test_table"]);
    let headers = strings(&["nombre", "age"]);
    let values = strings(&["Juan"]); // the value for "age" is missing
    let result = insert(&tables, &headers, &values, &mut store);

    assert!(result.is_ok(), "Insert failed");
    assert_eq!(table_lines(&store, "test_table"), vec!["Juan,"]);
}

#[test]
fn test_insert_with_extra_values() {
    let mut store = Store::new();
    store.insert_table("test_table".to_string(), make_table(&["nombre"], &[]));

    let tables = strings(&["test_table"]);
    let headers = strings(&["nombre"]);
    let values = strings(&["Juan", "25"]); // one extra value
    let result = insert(&tables, &headers, &values, &mut store);

    assert!(result.is_err());
    if let Err(ErrorType::InvalidColumn(err)) = result {
        assert_eq!(err, "Can't insert more values than the amount of columns");
    } else {
        panic!("Expected InvalidColumn error");
    }
}

#[test]
fn test_insert_with_exact_values() {
    let mut store = Store::new();
    store.insert_table(
        "test_table".to_string(),
        make_table(&["nombre", "age"], &[]),
    );

    let tables = strings(&["test_table"]);
    let headers = strings(&["nombre", "age"]);
    let values = strings(&["Juan", "25"]);
    let result = insert(&tables, &headers, &values, &mut store);

    assert!(result.is_ok(), "Insert failed");
    assert_eq!(table_lines(&store, "test_table"), vec!["Juan,25"]);
}

#[test]
fn test_insert_with_empty_headers() {
    let mut store = Store::new();
    store.insert_table(
        "test_table".to_string(),
        make_table(&["id", "nombre"], &[]),
    );

    let tables = strings(&["test_table"]);
    let values = strings(&["1", "Juan"]);
    let insert_result = insert(&tables, &Vec::new(), &values, &mut store);

    assert!(insert_result.is_ok(), "Insert failed");
    assert_eq!(table_lines(&store, "test_table"), vec!["1,Juan"]);
}

#[test]
fn test_insert_multiple_tables_with_asterisk() {
    let mut store = Store::new();
    store.insert_table(
        "test_table1".to_string(),
        make_table(&["id", "nombre"], &[]),
    );
    store.insert_table(
        "test_table2".to_string(),
        make_table(&["id", "nombre"], &[]),
    );

    let tables = strings(&["*"]);
    let values = strings(&["1", "Juan"]);
    let insert_result = insert(&tables, &Vec::new(), &values, &mut store);

    assert!(insert_result.is_ok(), "Insert failed");
    assert_eq!(table_lines(&store, "test_table1"), vec!["1,Juan"]);
    assert_eq!(table_lines(&store, "test_table2"), vec!["1,Juan"]);
}

#[test]
fn test_delete_single_row() {
    let mut store = Store::new();
    store.insert_table(
        "test_table".to_string(),
        make_table(&["id", "nombre"], &[&["1", "Juan"], &["2", "Maria"]]),
    );

    let where_cond = Some(Condition::Comparison(
        "id".to_string(),
        ComparisonOp::Eq,
        "1".to_string(),
    ));

    let tables = strings(&["test_table"]);
    let delete_result = delete(&tables, &where_cond, &mut store);

    assert!(delete_result.is_ok(), "Delete failed");
    assert_eq!(table_lines(&store, "test_table"), vec!["2,Maria"]);
}

#[test]
fn test_delete_no_rows() {
    let mut store = Store::new();
    store.insert_table(
        "test_table".to_string(),
        make_table(&["id", "nombre"], &[&["1", "Juan"], &["2", "Maria"]]),
    );

    let where_cond = Some(Condition::Comparison(
        "id".to_string(),
        ComparisonOp::Eq,
        "3".to_string(),
    ));

    let tables = strings(&["test_table"]);
    let delete_result = delete(&tables, &where_cond, &mut store);

    assert!(delete_result.is_ok(), "Delete failed");
    assert_eq!(table_lines(&store, "test_table"), vec!["1,Juan", "2,Maria"]);
}

#[test]
fn test_delete_multiple_rows() {
    let mut store = Store::new();
    store.insert_table(
        "test_table".to_string(),
        make_table(
            &["id", "nombre"],
            &[&["1", "Juan"], &["1", "Maria"], &["2", "Ana"]],
        ),
    );

    // remove every row whose id is 1
    let where_cond = Some(Condition::Comparison(
        "id".to_string(),
        ComparisonOp::Eq,
        "1".to_string(),
    ));

    let tables = strings(&["test_table"]);
    let delete_result = delete(&tables, &where_cond, &mut store);

    assert!(delete_result.is_ok(), "Delete failed");
    assert_eq!(table_lines(&store, "test_table"), vec!["2,Ana"]);
}

#[test]
fn test_delete_empty_table() {
    let mut store = Store::new();
    store.insert_table(
        "empty_table".to_string(),
        make_table(&["id", "nombre"], &[]),
    );

    let where_condition = Some(Condition::Comparison(
        "id".to_string(),
        ComparisonOp::Eq,
        "1".to_string(),
    ));

    let tables = strings(&["empty_table"]);
    let delete_result = delete(&tables, &where_condition, &mut store);

    assert!(delete_result.is_ok(), "Delete failed");
    assert_eq!(table_lines(&store, "empty_table"), Vec::<String>::new());
    let i = store.find_table("empty_table").unwrap();
    assert_eq!(store.table_at(i).header, strings(&["id", "nombre"]));
}

#[test]
fn test_delete_no_matching_rows() {
    let mut store = Store::new();
    store.insert_table(
        "test_table".to_string(),
        make_table(&["id", "nombre"], &[&["1", "Juan"], &["2", "Maria"]]),
    );

    let where_condition = Some(Condition::Comparison(
        "id".to_string(),
        ComparisonOp::Eq,
        "3".to_string(),
    )); // there is no id 3

    let tables = strings(&["test_table"]);
    let delete_result = delete(&tables, &where_condition, &mut store);

    assert!(delete_result.is_ok(), "Delete failed");
    assert_eq!(table_lines(&store, "test_table"), vec!["1,Juan", "2,Maria"]);
}

#[test]
fn test_delete_without_where_condition() {
    let mut store = Store::new();
    store.insert_table(
        "test_table".to_string(),
        make_table(&["id", "nombre"], &[&["1", "Juan"], &["2", "Maria"]]),
    );

    let tables = strings(&["test_table"]);
    let delete_result = delete(&tables, &None, &mut store); // no condition

    assert!(delete_result.is_ok(), "Delete failed");
    // with no filter every row is removed: only the header remains
    assert_eq!(table_lines(&store, "test_table"), Vec::<String>::new());
    let i = store.find_table("test_table").unwrap();
    assert_eq!(store.table_at(i).header, strings(&["id", "nombre"]));
}

#[test]
fn test_update_single_table_with_exact_values_1() {
    let mut store = Store::new();
    store.insert_table(
        "test_table".to_string(),
        make_table(&["id", "nombre"], &[&["1", "Carlos"]]),
    );

    let mut update_data = ValueMap::new();
    update_data.insert("nombre".to_string(), "Juan".to_string());

    let where_cond = Some(Condition::Comparison(
        "id".to_string(),
        ComparisonOp::Eq,
        "1".to_string(),
    ));

    let tables = strings(&["test_table"]);
    let update_result = update(&tables, &update_data, &where_cond, &mut store);

    assert!(update_result.is_ok(), "Update failed");
    assert_eq!(table_lines(&store, "test_table"), vec!["1,Juan"]);
}

#[test]
fn test_update_single_table_with_no_condition() {
    let mut store = Store::new();
    store.insert_table(
        "test_table".to_string(),
        make_table(&["id", "nombre"], &[&["1", "Carlos"]]),
    );

    let mut update_data = ValueMap::new();
    update_data.insert("nombre".to_string(), "Juan".to_string());

    let where_cond = None; // no condition

    let tables = strings(&["test_table"]);
    let update_result = update(&tables, &update_data, &where_cond, &mut store);

    assert!(update_result.is_ok(), "Update failed");
    assert_eq!(table_lines(&store, "test_table"), vec!["1,Juan"]);
}

#[test]
fn test_update_single_table_with_non_existing_condition() {
    let mut store = Store::new();
    store.insert_table(
        "test_table".to_string(),
        make_table(&["id", "nombre"], &[&["1", "Carlos"]]),
    );

    let mut update_data = ValueMap::new();
    update_data.insert("nombre".to_string(), "Juan".to_string());

    let where_cond = Some(Condition::Comparison(
        "id".to_string(),
        ComparisonOp::Eq,
        "999".to_string(),
    )); // the id does not exist

    let tables = strings(&["test_table"]);
    let update_result = update(&tables, &update_data, &where_cond, &mut store);

    assert!(update_result.is_ok(), "Update failed");
    assert_eq!(table_lines(&store, "test_table"), vec!["1,Carlos"]);
}

#[test]
fn test_update_multiple_tables_with_exact_values() {
    let mut store = Store::new();
    store.insert_table(
        "test_table1".to_string(),
        make_table(&["id", "nombre"], &[&["1", "Carlos"]]),
    );
    store.insert_table(
        "test_table2".to_string(),
        make_table(&["id", "nombre"], &[&["2", "Maria"]]),
    );

    let mut update_data = ValueMap::new();
    update_data.insert("nombre".to_string(), "Juan".to_string());

    let where_cond = Some(Condition::Comparison(
        "id".to_string(),
        ComparisonOp::Eq,
        "1".to_string(),
    ));

    let tables = strings(&["test_table1", "test_table2"]);
    let update_result = update(&tables, &update_data, &where_cond, &mut store);

    assert!(update_result.is_ok(), "Update failed");
    assert_eq!(table_lines(&store, "test_table1"), vec!["1,Juan"]);
    assert_eq!(table_lines(&store, "test_table2"), vec!["2,Maria"]);
}

#[test]
fn test_update_table_with_empty_update_data() {
    let mut store = Store::new();
    store.insert_table(
        "test_table".to_string(),
        make_table(&["id", "nombre"], &[&["1", "Carlos"]]),
    );

    let update_data = ValueMap::new(); // nothing to update
    let where_cond = Some(Condition::Comparison(
        "id".to_string(),
        ComparisonOp::Eq,
        "1".to_string(),
    ));

    let tables = strings(&["test_table"]);
    let update_result = update(&tables, &update_data, &where_cond, &mut store);

    assert!(update_result.is_ok(), "Update failed");
    assert_eq!(table_lines(&store, "test_table"), vec!["1,Carlos"]);
}

#[test]
fn test_update_with_invalid_column() {
    let mut store = Store::new();
    store.insert_table(
        "test_table".to_string(),
        make_table(&["id", "nombre"], &[&["1", "Carlos"]]),
    );

    let mut updates = ValueMap::new();
    updates.insert("invalid_column".to_string(), "value".to_string()); // unknown column

    let where_condition = Some(Condition::Comparison(
        "id".to_string(),
        ComparisonOp::Eq,
        "1".to_string(),
    ));

    let tables = strings(&["test_table"]);
    let update_result = update(&tables, &updates, &where_condition, &mut store);

    assert!(
        update_result.is_err(),
        "Expected error when updating with an invalid column"
    );
}

#[test]
fn test_update_no_matching_rows() {
    let mut store = Store::new();
    store.insert_table(
        "test_table".to_string(),
        make_table(&["id", "nombre"], &[&["1", "Carlos"]]),
    );

    let mut updates = ValueMap::new();
    updates.insert("nombre".to_string(), "Juan".to_string());

    let where_condition = Some(Condition::Comparison(
        "id".to_string(),
        ComparisonOp::Eq,
        "2".to_string(),
    )); // there is no id 2

    let tables = strings(&["test_table"]);
    let update_result = update(&tables, &updates, &where_condition, &mut store);

    assert!(update_result.is_ok(), "Update failed");
    assert_eq!(table_lines(&store, "test_table"), vec!["1,Carlos"]);
}

#[test]
fn test_update_empty_table() {
    let mut store = Store::new();
    store.insert_table(
        "empty_table".to_string(),
        make_table(&["id", "nombre"], &[]),
    );

    let mut updates = ValueMap::new();
    updates.insert("nombre".to_string(), "Juan".to_string());

    let where_condition = Some(Condition::Comparison(
        "id".to_string(),
        ComparisonOp::Eq,
        "1".to_string(),
    ));

    let tables = strings(&["empty_table"]);
    let update_result = update(&tables, &updates, &where_condition, &mut store);

    assert!(update_result.is_ok(), "Update failed");
    assert_eq!(table_lines(&store, "empty_table"), Vec::<String>::new());
}

#[test]
fn test_select_with_where_condition() {
    let mut store = Store::new();
    store.insert_table(
        "test_table".to_string(),
        make_table(&["id", "nombre"], &[&["1", "Juan"], &["2", "Maria"]]),
    );

    let where_condition = Some(Condition::Comparison(
        "id".to_string(),
        ComparisonOp::Eq,
        "1".to_string(),
    ));

    let headers = strings(&["id", "nombre"]);
    let tables = strings(&["test_table"]);
    let select_result = select(&headers, &tables, &where_condition, &None, &store);

    let expected_output = "id,nombre\n1,Juan\n";
    assert_eq!(select_result.unwrap().unwrap(), expected_output);
}

#[test]
fn test_select_where_no_eq() {
    let mut store = Store::new();
    store.insert_table(
        "test_table".to_string(),
        make_table(&["id", "nombre"], &[&["1", "Juan"], &["2", "Maria"]]),
    );

    let where_condition = Some(Condition::Comparison(
        "id".to_string(),
        ComparisonOp::Eq,
        "3".to_string(),
    ));

    let headers = strings(&["id", "nombre"]);
    let tables = strings(&["test_table"]);
    let select_result = select(&headers, &tables, &where_condition, &None, &store);

    // no row matches, so the output is only the header
    let expected_output = "id,nombre\n";
    assert_eq!(select_result.unwrap().unwrap(), expected_output);
}

#[test]
fn test_select_without_where_condition() {
    let mut store = Store::new();
    store.insert_table(
        "test_table".to_string(),
        make_table(&["id", "nombre"], &[&["1", "Juan"], &["2", "Maria"]]),
    );

    let headers = strings(&["id", "nombre"]);
    let tables = strings(&["test_table"]);
    let select_result = select(&headers, &tables, &None, &None, &store);

    let expected_output = "id,nombre\n1,Juan\n2,Maria\n";
    assert_eq!(select_result.unwrap().unwrap(), expected_output);
}

#[test]
fn test_select_with_order() {
    let mut store = Store::new();
    store.insert_table(
        "test_table".to_string(),
        make_table(&["id", "nombre"], &[&["2", "Maria"], &["1", "Juan"]]),
    );

    let order_by = vec![OrderBy {
        column: "id".to_string(),
        direction: Direction::Ascending,
    }];
    let headers = strings(&["id", "nombre"]);
    let tables = strings(&["test_table"]);
    let select_result = select(&headers, &tables, &None, &Some(order_by), &store);

    let expected_output = "id,nombre\n1,Juan\n2,Maria\n";
    assert_eq!(select_result.unwrap().unwrap(), expected_output);
}

#[test]
fn test_select_with_where_condition_and_order() {
    let mut store = Store::new();
    store.insert_table(
        "test_table".to_string(),
        make_table(&["id", "nombre"], &[&["1", "Juan"], &["2", "Maria"]]),
    );

    let where_condition = Some(Condition::Comparison(
        "id".to_string(),
        ComparisonOp::Eq,
        "1".to_string(),
    ));
    let order_by = vec![OrderBy {
        column: "nombre".to_string(),
        direction: Direction::Ascending,
    }];
    let headers = strings(&["id", "nombre"]);
    let tables = strings(&["test_table"]);
    let select_result = select(&headers, &tables, &where_condition, &Some(order_by), &store);

    let expected_output = "id,nombre\n1,Juan\n";
    assert_eq!(select_result.unwrap().unwrap(), expected_output);
}

#[test]
fn test_select_where_no_eq_rows_with_order() {
    let mut store = Store::new();
    store.insert_table(
        "test_table".to_string(),
        make_table(&["id", "nombre"], &[&["1", "Juan"], &["2", "Maria"]]),
    );

    let where_condition = Some(Condition::Comparison(
        "id".to_string(),
        ComparisonOp::Eq,
        "3".to_string(),
    ));
    let order_by = vec![OrderBy {
        column: "nombre".to_string(),
        direction: Direction::Ascending,
    }];
    let headers = strings(&["id", "nombre"]);
    let tables = strings(&["test_table"]);
    let select_result = select(&headers, &tables, &where_condition, &Some(order_by), &store);

    let expected_output = "id,nombre\n";
    assert_eq!(select_result.unwrap().unwrap(), expected_output);
}

#[test]
fn test_select_with_order_descending() {
    let mut store = Store::new();
    store.insert_table(
        "test_table".to_string(),
        make_table(
            &["id", "nombre"],
            &[&["1", "Juan"], &["3", "Ana"], &["2", "Maria"]],
        ),
    );

    let order_by = vec![OrderBy {
        column: "id".to_string(),
        direction: Direction::Descending,
    }];
    let headers = strings(&["id", "nombre"]);
    let tables = strings(&["test_table"]);
    let select_result = select(&headers, &tables, &None, &Some(order_by), &store);

    let expected_output = "id,nombre\n3,Ana\n2,Maria\n1,Juan\n";
    assert_eq!(select_result.unwrap().unwrap(), expected_output);
}

#[test]
fn test_select_all_columns_from_multiple_tables() {
    let mut store = Store::new();
    store.insert_table(
        "test_table1".to_string(),
        make_table(&["id", "nombre"], &[&["1", "Juan"], &["2", "Maria"]]),
    );
    store.insert_table(
        "test_table2".to_string(),
        make_table(&["id", "producto"], &[&["1", "Laptop"], &["2", "Mouse"]]),
    );

    let tables = strings(&["test_table1", "test_table2"]);
    let headers = strings(&["*"]); // SELECT *

    let select_result = select(&headers, &tables, &None, &None, &store);
    assert!(select_result.is_ok(), "Select failed");

    let output = select_result.unwrap();
    assert!(output.is_some(), "Output is None");

    let expected_output = "id,nombre\n1,Juan\n2,Maria\nid,producto\n1,Laptop\n2,Mouse\n";
    assert_eq!(output.unwrap(), expected_output, "Output did not match expected");
}
