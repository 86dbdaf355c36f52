use stdx_check::document::{ShapeError, Table, Value};
use stdx_check::dupes::{dupes, precedes, scan};

fn pkg(name: &str) -> Value {
    Value::Table(Table { entries: vec![("name".to_string(), Value::Str(name.to_string()))] })
}

#[test]
fn scan_reports_only_repeated_names() {
    let paks = vec![pkg("a"), pkg("b"), pkg("a"), pkg("a")];
    assert_eq!(scan(&paks), vec![("a".to_string(), 3)]);
}

#[test]
fn scan_skips_entries_without_a_name() {
    let unnamed = Value::Table(Table { entries: vec![("version".to_string(), Value::Str("1".to_string()))] });
    let paks = vec![pkg("a"), unnamed, pkg("b"), Value::Int(7), pkg("a"), pkg("a")];
    assert_eq!(scan(&paks), vec![("a".to_string(), 3)]);
}

#[test]
fn scan_of_nothing_is_empty() {
    assert_eq!(scan(&vec![]), vec![]);
    assert_eq!(scan(&vec![pkg("a"), pkg("b")]), vec![]);
}

#[test]
fn scan_orders_report_by_name() {
    let paks = vec![pkg("serde"), pkg("b"), pkg("a"), pkg("b"), pkg("serde"), pkg("a"), pkg("c"), pkg("a"), pkg("ab"), pkg("ab")];
    assert_eq!(
        scan(&paks),
        vec![("a".to_string(), 3), ("ab".to_string(), 2), ("b".to_string(), 2), ("serde".to_string(), 2)]
    );
}

#[test]
fn names_compare_bytewise() {
    let s = |x: &str| x.to_string();
    assert!(precedes(&s("a"), &s("b")));
    assert!(precedes(&s("a"), &s("ab")));
    assert!(!precedes(&s("ab"), &s("a")));
    assert!(!precedes(&s("a"), &s("a")));
    assert!(precedes(&s("Z"), &s("a")));
    assert!(precedes(&s(""), &s("a")));
}

#[test]
fn dupes_reads_the_package_list() {
    let lock = Table {
        entries: vec![("package".to_string(), Value::Array(vec![pkg("x"), pkg("x")]))],
    };
    assert_eq!(dupes(&lock), Ok(vec![("x".to_string(), 2)]));
    let none = Table::new();
    assert_eq!(dupes(&none), Err(ShapeError::Missing));
    let wrong = Table { entries: vec![("package".to_string(), pkg("x"))] };
    assert_eq!(dupes(&wrong), Err(ShapeError::WrongType));
}

#[test]
fn unnamed_entries_leave_report_unchanged() {
    let base = vec![pkg("a"), pkg("b"), pkg("a"), pkg("a")];
    let unnamed = || Value::Table(Table { entries: vec![("version".to_string(), Value::Str("1".to_string()))] });
    let odd_name = || Value::Table(Table { entries: vec![("name".to_string(), Value::Int(1))] });
    let padded = vec![unnamed(), pkg("a"), Value::Bool(true), pkg("b"), odd_name(), pkg("a"), pkg("a"), unnamed()];
    assert_eq!(scan(&padded), scan(&base));
}
