use sql_rustico::command_types::Commands;
use sql_rustico::parser::{delete_parser, insert_parser, select_parser, update_parser};

#[test]
fn parser_test_insert_parser_with_headers() {
    let mut query = String::from("INTO users (id, name) VALUES (1, 'Alice');");
    let result = insert_parser(&mut query);
    assert!(result.is_ok());

    if let Commands::Insert {
        tables,
        headers,
        values,
    } = result.unwrap()
    {
        assert_eq!(tables, ["users"]);
        assert_eq!(headers, vec!["id", "name"]);
        assert_eq!(values, vec!["1", "Alice"]);
    } else {
        panic!("Expected an Insert command");
    }
}

#[test]
fn parser_test_insert_parser_without_headers() {
    let mut query = String::from("INTO users VALUES (1, 'Alice');");
    let result = insert_parser(&mut query);
    assert!(result.is_ok());

    if let Commands::Insert {
        tables,
        headers,
        values,
    } = result.unwrap()
    {
        assert_eq!(tables, ["users"]);
        assert!(headers.is_empty());
        assert_eq!(values, vec!["1", "Alice"]);
    } else {
        panic!("Expected an Insert command");
    }
}

#[test]
fn parser_test_insert_parser_missing_values() {
    let mut query = String::from("INTO users (id, name);");
    let result = insert_parser(&mut query);
    assert!(result.is_err());
}

#[test]
fn test_insert_parser_missing_table() {
    let mut query = String::from("INTO (id, name) VALUES (1, 'Alice');");
    let result = insert_parser(&mut query);
    assert!(result.is_err());
}

#[test]
fn parser_test_insert_parser_missing_values_keyword() {
    let mut query = String::from("INTO users (id, name) (1, 'Alice');");
    let result = insert_parser(&mut query);
    assert!(result.is_err());
}

#[test]
fn parser_test_insert_parser_missing_parentheses() {
    let mut query = String::from("INTO users (id, name) VALUES 1, 'Alice';");
    let result = insert_parser(&mut query);
    assert!(result.is_err());
}

#[test]
fn parser_test_update_parser_with_where() {
    let mut query = String::from("users SET name = 'Alice' WHERE id = 1;");
    let result = update_parser(&mut query);
    assert!(result.is_ok());

    if let Commands::Update {
        tables,
        updates,
        where_st,
    } = result.unwrap()
    {
        assert_eq!(tables, ["users"]);
        assert_eq!(updates.get("name"), Some(&"Alice".to_string()));
        assert!(where_st.is_some());
    } else {
        panic!("Expected an Update command");
    }
}

#[test]
fn parser_test_update_parser_without_where() {
    let mut query = String::from("users SET name = 'Alice';");
    let result = update_parser(&mut query);
    assert!(result.is_ok());

    if let Commands::Update {
        tables,
        updates,
        where_st,
    } = result.unwrap()
    {
        assert_eq!(tables, ["users"]);
        assert_eq!(updates.get("name"), Some(&"Alice".to_string()));
        assert!(where_st.is_none());
    } else {
        panic!("Expected an Update command");
    }
}

#[test]
fn parser_test_update_parser_missing_set() {
    let mut query = String::from("users WHERE id = 1;");
    let result = update_parser(&mut query);
    assert!(result.is_err());
}

#[test]
fn parser_test_update_parser_missing_set_keyword() {
    let mut query = String::from("users name = 'Alice';");
    let result = update_parser(&mut query);
    assert!(result.is_err());
}

#[test]
fn parser_test_update_parser_incorrect_update_syntax() {
    let mut query = String::from("users SET name 'Alice';");
    let result = update_parser(&mut query);
    assert!(result.is_err());
}

#[test]
fn parser_test_update_parser_empty_key() {
    let mut query = String::from("users SET = 3 WHERE id = 1;");
    let result = update_parser(&mut query);
    assert!(result.is_err());
}

// empty values are allowed
#[test]
fn parser_test_update_parser_empty_value() {
    let mut query = String::from("users SET name = WHERE id = 1;");
    let result = update_parser(&mut query);
    assert!(result.is_ok());

    if let Commands::Update {
        tables,
        updates,
        where_st,
    } = result.unwrap()
    {
        assert_eq!(tables, ["users"]);
        assert_eq!(updates.get("name"), Some(&"".to_string()));
        assert!(where_st.is_some());
    } else {
        panic!("Expected an Update command");
    }
}

#[test]
fn parser_test_delete_parser_with_where() {
    let mut query = String::from("FROM users WHERE id = 1;");
    let result = delete_parser(&mut query);
    assert!(result.is_ok());

    if let Commands::Delete { tables, where_st } = result.unwrap() {
        assert_eq!(tables, ["users"]);
        assert!(where_st.is_some());
    } else {
        panic!("Expected a Delete command");
    }
}

#[test]
fn parser_test_delete_parser_without_where() {
    let mut query = String::from("FROM users;");
    let result = delete_parser(&mut query);
    assert!(result.is_ok());

    if let Commands::Delete { tables, where_st } = result.unwrap() {
        assert_eq!(tables, ["users"]);
        assert!(where_st.is_none());
    } else {
        panic!("Expected a Delete command");
    }
}

#[test]
fn test_delete_parser_missing_table() {
    let mut query = String::from("FROM WHERE id = 1;");
    let result = delete_parser(&mut query);
    assert!(result.is_err());
}

#[test]
fn parser_test_delete_parser_incorrect_where_syntax() {
    let mut query = String::from("FROM users WHERE id 1;");
    let result = delete_parser(&mut query);
    assert!(result.is_err());
}

#[test]
fn parser_test_select_parser_with_where_and_order() {
    let mut query = String::from("name, age FROM users WHERE age > 18 ORDER BY age DESC;");
    let result = select_parser(&mut query);
    assert!(result.is_ok());

    if let Commands::Select {
        headers,
        tables,
        where_st,
        order,
    } = result.unwrap()
    {
        assert_eq!(headers, vec!["name", "age"]);
        assert_eq!(tables, ["users"]);
        assert!(where_st.is_some());
        assert!(order.is_some());
    } else {
        panic!("Expected a Select command");
    }
}

#[test]
fn parser_test_select_parser_without_where_and_order() {
    let mut query = String::from("name, age FROM users;");
    let result = select_parser(&mut query);
    assert!(result.is_ok());

    if let Commands::Select {
        headers,
        tables,
        where_st,
        order,
    } = result.unwrap()
    {
        assert_eq!(headers, vec!["name", "age"]);
        assert_eq!(tables, ["users"]);
        assert!(where_st.is_none());
        assert!(order.is_none());
    } else {
        panic!("Expected a Select command");
    }
}

#[test]
fn parser_test_select_parser_missing_from() {
    let mut query = String::from("name, age;");
    let result = select_parser(&mut query);
    assert!(result.is_err());
}

#[test]
fn parser_test_select_parser_missing_from_keyword() {
    let mut query = String::from("name, age WHERE age > 18;");
    let result = select_parser(&mut query);
    assert!(result.is_err());
}

#[test]
fn parser_test_select_parser_incorrect_order_by_syntax() {
    let mut query = String::from("name, age FROM users ORDER BY;");
    let result = select_parser(&mut query);
    assert!(result.is_err());
}

#[test]
fn parser_test_select_parser_incorrect_order_syntax() {
    let mut query = String::from("name, age FROM users ORDER;");
    let result = select_parser(&mut query);
    assert!(result.is_err());
}

#[test]
fn parser_test_select_parser_missing_values() {
    let mut query = String::from("FROM users;");
    let result = select_parser(&mut query);
    assert!(result.is_err());
}
