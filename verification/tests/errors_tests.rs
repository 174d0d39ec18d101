use sql_rustico::errors::ErrorType;

#[test]
fn test_invalid_table_error() {
    let error = ErrorType::InvalidTable("Table not found".to_string());
    let formatted_error = error.create_error();

    assert_eq!(
        formatted_error.to_string(),
        "[INVALID_TABLE]: Table not found"
    );
}

#[test]
fn test_invalid_column_error() {
    let error = ErrorType::InvalidColumn("Column does not exist".to_string());
    let formatted_error = error.create_error();

    assert_eq!(
        formatted_error.to_string(),
        "[INVALID_COLUMN]: Column does not exist"
    );
}

#[test]
fn test_invalid_syntax_error() {
    let error = ErrorType::InvalidSyntax("Syntax error in query".to_string());
    let formatted_error = error.create_error();

    assert_eq!(
        formatted_error.to_string(),
        "[INVALID_SYNTAX]: Syntax error in query"
    );
}

#[test]
fn test_other_error() {
    let error = ErrorType::OtherError("An unknown error occurred".to_string());
    let formatted_error = error.create_error();

    assert_eq!(formatted_error.to_string(), "[ERROR]: An unknown error occurred");
}
