use sql_rustico::condition::{ComparisonOp, Condition};
use sql_rustico::value_map::ValueMap;

fn row_with(pairs: &[(&str, &str)]) -> ValueMap {
    let mut row = ValueMap::new();
    for (k, v) in pairs {
        row.insert(k.to_string(), v.to_string());
    }
    row
}

#[test]
fn test_eq_comparison() {
    let row = row_with(&[("amount", "100")]);

    // "amount" == "100"
    let condition = Condition::Comparison("amount".to_string(), ComparisonOp::Eq, "100".to_string());
    assert!(condition.evaluate(&row)); // true, 100 == 100

    // "amount" == "101"
    let condition = Condition::Comparison("amount".to_string(), ComparisonOp::Eq, "101".to_string());
    assert!(!condition.evaluate(&row)); // false, 100 != 101

    // "amount" == "99"
    let condition = Condition::Comparison("amount".to_string(), ComparisonOp::Eq, "101".to_string());
    assert!(!condition.evaluate(&row));

    // the column does not exist
    let condition =
        Condition::Comparison("noexiste".to_string(), ComparisonOp::Eq, "100".to_string());
    assert!(!condition.evaluate(&row)); // false
}

#[test]
fn test_neq_comparison() {
    let row = row_with(&[("amount", "100")]);

    let condition =
        Condition::Comparison("amount".to_string(), ComparisonOp::Neq, "150".to_string());
    assert!(condition.evaluate(&row)); // true, 100 != 150

    let condition =
        Condition::Comparison("amount".to_string(), ComparisonOp::Neq, "100".to_string());
    assert!(!condition.evaluate(&row)); // false, 100 == 100

    let condition =
        Condition::Comparison("noexiste".to_string(), ComparisonOp::Neq, "100".to_string());
    assert!(!condition.evaluate(&row));
}

#[test]
fn test_gt_comparison() {
    let row = row_with(&[("amount", "100")]);

    let condition = Condition::Comparison("amount".to_string(), ComparisonOp::Gt, "50".to_string());
    assert!(condition.evaluate(&row)); // true, 100 > 50

    let condition =
        Condition::Comparison("amount".to_string(), ComparisonOp::Gt, "100".to_string());
    assert!(!condition.evaluate(&row)); // false, 100 == 100

    let condition =
        Condition::Comparison("amount".to_string(), ComparisonOp::Gt, "150".to_string());
    assert!(!condition.evaluate(&row)); // false, 100 < 150
}

#[test]
fn test_lt_comparison() {
    let row = row_with(&[("amount", "100")]);

    let condition =
        Condition::Comparison("amount".to_string(), ComparisonOp::Lt, "150".to_string());
    assert!(condition.evaluate(&row)); // true, 100 < 150

    let condition =
        Condition::Comparison("amount".to_string(), ComparisonOp::Lt, "100".to_string());
    assert!(!condition.evaluate(&row)); // false, 100 == 100

    let condition = Condition::Comparison("amount".to_string(), ComparisonOp::Lt, "50".to_string());
    assert!(!condition.evaluate(&row)); // false, 100 > 50
}

#[test]
fn test_gte_comparison() {
    let row = row_with(&[("amount", "100")]);

    let condition =
        Condition::Comparison("amount".to_string(), ComparisonOp::Gte, "100".to_string());
    assert!(condition.evaluate(&row)); // true, 100 >= 100

    let condition =
        Condition::Comparison("amount".to_string(), ComparisonOp::Gte, "50".to_string());
    assert!(condition.evaluate(&row)); // true, 100 >= 50

    let condition =
        Condition::Comparison("amount".to_string(), ComparisonOp::Gte, "150".to_string());
    assert!(!condition.evaluate(&row)); // false, 100 < 150
}

#[test]
fn test_lte_comparison() {
    let row = row_with(&[("amount", "100")]);

    let condition =
        Condition::Comparison("amount".to_string(), ComparisonOp::Lte, "100".to_string());
    assert!(condition.evaluate(&row)); // true, 100 <= 100

    let condition =
        Condition::Comparison("amount".to_string(), ComparisonOp::Lte, "150".to_string());
    assert!(condition.evaluate(&row)); // true, 100 <= 150

    let condition =
        Condition::Comparison("amount".to_string(), ComparisonOp::Lte, "50".to_string());
    assert!(!condition.evaluate(&row)); // false, 100 > 50
}

#[test]
fn test_nested_and_conditions() {
    let row = row_with(&[("name", "marco"), ("price", "50"), ("quantity", "5")]);

    // (name == marco) AND (price != 50) AND (quantity < 10)
    let condition = Condition::And(
        Box::new(Condition::Comparison(
            "name".to_string(),
            ComparisonOp::Eq,
            "marco".to_string(),
        )),
        Box::new(Condition::And(
            Box::new(Condition::Comparison(
                "price".to_string(),
                ComparisonOp::Neq,
                "50".to_string(),
            )),
            Box::new(Condition::Comparison(
                "quantity".to_string(),
                ComparisonOp::Lt,
                "10".to_string(),
            )),
        )),
    );
    assert!(!condition.evaluate(&row)); // false, price == 50
}

#[test]
fn test_nested_or_conditions() {
    let row = row_with(&[("amount", "100"), ("price", "50"), ("quantity", "5")]);

    // (amount > 150) OR (price < 40) OR (quantity <= 5)
    let condition = Condition::Or(
        Box::new(Condition::Comparison(
            "amount".to_string(),
            ComparisonOp::Gt,
            "150".to_string(),
        )),
        Box::new(Condition::Or(
            Box::new(Condition::Comparison(
                "price".to_string(),
                ComparisonOp::Lt,
                "40".to_string(),
            )),
            Box::new(Condition::Comparison(
                "quantity".to_string(),
                ComparisonOp::Lte,
                "5".to_string(),
            )),
        )),
    );
    assert!(condition.evaluate(&row)); // true, quantity <= 5
}

#[test]
fn test_complex_nested_conditions() {
    let row = row_with(&[("amount", "100"), ("price", "50"), ("quantity", "5")]);

    // (amount == 100) AND (price == 50) OR NOT (quantity < 3)
    let condition = Condition::Or(
        Box::new(Condition::And(
            Box::new(Condition::Comparison(
                "amount".to_string(),
                ComparisonOp::Eq,
                "100".to_string(),
            )),
            Box::new(Condition::Comparison(
                "price".to_string(),
                ComparisonOp::Eq,
                "50".to_string(),
            )),
        )),
        Box::new(Condition::Not(Box::new(Condition::Comparison(
            "quantity".to_string(),
            ComparisonOp::Lt,
            "3".to_string(),
        )))),
    );
    assert!(condition.evaluate(&row)); // true

    // NOT ((amount < 50) OR (price > 60)) AND (quantity <= 5)
    let condition = Condition::And(
        Box::new(Condition::Not(Box::new(Condition::Or(
            Box::new(Condition::Comparison(
                "amount".to_string(),
                ComparisonOp::Lt,
                "50".to_string(),
            )),
            Box::new(Condition::Comparison(
                "price".to_string(),
                ComparisonOp::Gt,
                "60".to_string(),
            )),
        )))),
        Box::new(Condition::Comparison(
            "quantity".to_string(),
            ComparisonOp::Lte,
            "5".to_string(),
        )),
    );
    assert!(condition.evaluate(&row)); // true

    // (amount > 50) AND (price < 100) OR (quantity != 5)
    let condition = Condition::Or(
        Box::new(Condition::And(
            Box::new(Condition::Comparison(
                "amount".to_string(),
                ComparisonOp::Gt,
                "50".to_string(),
            )),
            Box::new(Condition::Comparison(
                "price".to_string(),
                ComparisonOp::Lt,
                "100".to_string(),
            )),
        )),
        Box::new(Condition::Comparison(
            "quantity".to_string(),
            ComparisonOp::Neq,
            "5".to_string(),
        )),
    );
    assert!(condition.evaluate(&row)); // true

    // (amount == 100) OR NOT (price <= 50) AND (quantity < 10)
    let condition = Condition::And(
        Box::new(Condition::Or(
            Box::new(Condition::Comparison(
                "amount".to_string(),
                ComparisonOp::Eq,
                "100".to_string(),
            )),
            Box::new(Condition::Not(Box::new(Condition::Comparison(
                "price".to_string(),
                ComparisonOp::Lte,
                "50".to_string(),
            )))),
        )),
        Box::new(Condition::Comparison(
            "quantity".to_string(),
            ComparisonOp::Lt,
            "10".to_string(),
        )),
    );
    assert!(condition.evaluate(&row)); // true

    // NOT ((amount == 100) AND (price == 50)) OR (quantity >= 5)
    let condition = Condition::Or(
        Box::new(Condition::Not(Box::new(Condition::And(
            Box::new(Condition::Comparison(
                "amount".to_string(),
                ComparisonOp::Eq,
                "100".to_string(),
            )),
            Box::new(Condition::Comparison(
                "price".to_string(),
                ComparisonOp::Eq,
                "50".to_string(),
            )),
        )))),
        Box::new(Condition::Comparison(
            "quantity".to_string(),
            ComparisonOp::Gte,
            "5".to_string(),
        )),
    );
    assert!(condition.evaluate(&row)); // true
}
