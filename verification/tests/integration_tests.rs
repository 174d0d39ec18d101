use sql_rustico::commands::execute;
use sql_rustico::parser::parse_query;
use sql_rustico::table::{Store, Table};

fn make_table(headers: &[&str], rows: &[&[&str]]) -> Table {
    Table {
        header: headers.iter().map(|h| h.to_string()).collect(),
        lines: rows.iter().map(|r| r.join(",")).collect(),
    }
}

fn clientes_store() -> Store {
    let mut store = Store::new();
    store.insert_table(
        "clientes".to_string(),
        make_table(
            &["id", "nombre", "apellido", "email"],
            &[
                &["1", "Juan", "Pérez", "juan.perez@email.com"],
                &["2", "Ana", "López", "ana.lopez@email.com"],
                &["3", "Carlos", "Gómez", "carlos.gomez@email.com"],
                &["4", "María", "Rodríguez", "maria.rodriguez@email.com"],
                &["5", "José", "López", "jose.lopez@email.com"],
                &["6", "Laura", "Fernández", "laura.fernandez@email.com"],
            ],
        ),
    );
    store
}

fn ordenes_store() -> Store {
    let mut store = Store::new();
    store.insert_table(
        "ordenes".to_string(),
        make_table(
            &["id", "id_cliente", "producto", "cantidad"],
            &[
                &["101", "1", "Laptop", "1"],
                &["103", "1", "Monitor", "1"],
                &["102", "2", "Teléfono", "2"],
                &["104", "3", "Teclado", "1"],
                &["105", "4", "Mouse", "2"],
                &["106", "5", "Impresora", "1"],
                &["107", "6", "Altavoces", "1"],
                &["108", "4", "Auriculares", "1"],
                &["109", "5", "Laptop", "1"],
                &["110", "6", "Teléfono", "2"],
            ],
        ),
    );
    store
}

fn sql_main_replica(store: &mut Store, query: &str) -> Result<Option<String>, String> {
    let command = parse_query(&mut query.to_string()).map_err(|e| e.create_error())?;
    let output = execute(&command, store).map_err(|e| e.create_error())?;
    Ok(output)
}

fn table_content(store: &Store, name: &str) -> String {
    let i = store.find_table(name).expect("table not found");
    let t = store.table_at(i);
    let mut out = t.header.join(",");
    out.push('\n');
    for line in &t.lines {
        out.push_str(line);
        out.push('\n');
    }
    out
}

#[test]
fn test_select_ordenes_with_quantity_greater_than_one() {
    let mut store = ordenes_store();

    let output = sql_main_replica(
        &mut store,
        "SELECT id, producto, id_cliente FROM ordenes WHERE cantidad > 1;",
    )
    .expect("query failed");

    let expected_output = Some(
        "id,producto,id_cliente\n\
         102,Teléfono,2\n\
         105,Mouse,4\n\
         110,Teléfono,6\n"
            .to_string(),
    );

    assert_eq!(output, expected_output);
}

#[test]
fn test_select_ordenes_with_complex_conditions() {
    let mut store = ordenes_store();

    let output = sql_main_replica(&mut store, "SELECT id, producto, cantidad FROM ordenes WHERE (cantidad > 1 AND id_cliente = 2) OR (producto = 'Laptop' AND NOT id_cliente = 1) ORDER BY cantidad DESC, producto ASC;").expect("query failed");

    let expected_output = Some(
        "id,producto,cantidad\n\
         102,Teléfono,2\n\
         109,Laptop,1\n"
            .to_string(),
    );

    assert_eq!(output, expected_output);
}

#[test]
fn test_select_clientes_with_last_name_lopez_ordered_by_email_desc() {
    let mut store = clientes_store();

    let output = sql_main_replica(
        &mut store,
        "SELECT id, nombre, email FROM clientes WHERE apellido = 'López' ORDER BY email DESC;",
    )
    .expect("query failed");

    let expected_output = Some(
        "id,nombre,email\n\
         5,José,jose.lopez@email.com\n\
         2,Ana,ana.lopez@email.com\n"
            .to_string(),
    );

    assert_eq!(output, expected_output);
}

#[test]
fn test_update_cliente_email() {
    let mut store = clientes_store();

    sql_main_replica(
        &mut store,
        "UPDATE clientes SET email = 'mrodriguez@hotmail.com' WHERE id = 4;",
    )
    .expect("query failed");

    let updated_content = table_content(&store, "clientes");
    let expected_content = "id,nombre,apellido,email\n\
                            1,Juan,Pérez,juan.perez@email.com\n\
                            2,Ana,López,ana.lopez@email.com\n\
                            3,Carlos,Gómez,carlos.gomez@email.com\n\
                            4,María,Rodríguez,mrodriguez@hotmail.com\n\
                            5,José,López,jose.lopez@email.com\n\
                            6,Laura,Fernández,laura.fernandez@email.com\n";

    assert_eq!(updated_content, expected_content);
}

#[test]
fn test_insert_ordenes() {
    let mut store = ordenes_store();

    sql_main_replica(
        &mut store,
        "INSERT INTO ordenes (id, id_cliente, producto, cantidad) VALUES (111, 6, 'Laptop', 3);",
    )
    .expect("query failed");

    let updated_orders_content = table_content(&store, "ordenes");
    let expected_orders_content = "id,id_cliente,producto,cantidad\n\
                                   101,1,Laptop,1\n\
                                   103,1,Monitor,1\n\
                                   102,2,Teléfono,2\n\
                                   104,3,Teclado,1\n\
                                   105,4,Mouse,2\n\
                                   106,5,Impresora,1\n\
                                   107,6,Altavoces,1\n\
                                   108,4,Auriculares,1\n\
                                   109,5,Laptop,1\n\
                                   110,6,Teléfono,2\n\
                                   111,6,Laptop,3\n";

    assert_eq!(updated_orders_content, expected_orders_content);
}

#[test]
fn test_delete_cliente() {
    let mut store = clientes_store();

    sql_main_replica(&mut store, "DELETE FROM clientes WHERE id = 4;").expect("query failed");

    let updated_content = table_content(&store, "clientes");
    let expected_content = "id,nombre,apellido,email\n\
                            1,Juan,Pérez,juan.perez@email.com\n\
                            2,Ana,López,ana.lopez@email.com\n\
                            3,Carlos,Gómez,carlos.gomez@email.com\n\
                            5,José,López,jose.lopez@email.com\n\
                            6,Laura,Fernández,laura.fernandez@email.com\n";

    assert_eq!(updated_content, expected_content);
}
