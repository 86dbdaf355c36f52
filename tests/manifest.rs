use stdx_check::document::{ShapeError, Table, Value};
use stdx_check::manifest::{
    existing_dependency, extract_name, get_dependencies, get_packages, inject, insert_stdx_dep, Args, InjectError,
    StdxOpt,
};

fn s(x: &str) -> String {
    x.to_string()
}

fn table(entries: Vec<(&str, Value)>) -> Table {
    Table { entries: entries.into_iter().map(|(k, v)| (s(k), v)).collect() }
}

fn manifest_with_foo() -> Table {
    table(vec![
        ("package", Value::Table(table(vec![("name", Value::Str(s("demo")))]))),
        ("dependencies", Value::Table(table(vec![("foo", Value::Str(s("1.0")))]))),
    ])
}

fn deps(doc: &Table) -> &Table {
    get_dependencies(doc).expect("a dependency table")
}

fn str_of(v: &Value) -> Option<&str> {
    match v {
        Value::Str(x) => Some(x.as_str()),
        _ => None,
    }
}

#[test]
fn inject_version_adds_entry_after_existing() {
    let mut doc = manifest_with_foo();
    let r = insert_stdx_dep(&mut doc, &StdxOpt::Version(s("0.117.0")));
    assert_eq!(r, Ok(()));
    let d = deps(&doc);
    assert_eq!(d.entries.len(), 2);
    assert_eq!(d.entries[0].0, "foo");
    assert_eq!(str_of(&d.entries[0].1), Some("1.0"));
    assert_eq!(d.entries[1].0, "stdx");
    assert_eq!(str_of(&d.entries[1].1), Some("0.117.0"));
    assert_eq!(doc.entries.len(), 2);
    assert_eq!(doc.entries[0].0, "package");
}

#[test]
fn inject_git_adds_one_entry_table() {
    let mut doc = manifest_with_foo();
    let url = s("https://github.com/brson/stdx.git");
    assert_eq!(insert_stdx_dep(&mut doc, &StdxOpt::Git(url.clone())), Ok(()));
    let d = deps(&doc);
    match &d.entries[1].1 {
        Value::Table(t) => {
            assert_eq!(t.entries.len(), 1);
            assert_eq!(t.entries[0].0, "git");
            assert_eq!(str_of(&t.entries[0].1), Some(url.as_str()));
        }
        other => panic!("not a table: {:?}", other),
    }
}

#[test]
fn inject_existing_name_fails_and_leaves_document() {
    let mut doc = manifest_with_foo();
    let r = inject(&mut doc, &s("foo"), &StdxOpt::Version(s("2.0")));
    assert_eq!(r, Err(InjectError::AlreadyPresent));
    let d = deps(&doc);
    assert_eq!(d.entries.len(), 1);
    assert_eq!(str_of(&d.entries[0].1), Some("1.0"));
}

#[test]
fn inject_twice_fails_the_second_time() {
    let mut doc = manifest_with_foo();
    assert_eq!(insert_stdx_dep(&mut doc, &StdxOpt::Version(s("0.117.0"))), Ok(()));
    let r = insert_stdx_dep(&mut doc, &StdxOpt::Version(s("0.118.0")));
    assert_eq!(r, Err(InjectError::AlreadyPresent));
    let d = deps(&doc);
    assert_eq!(d.entries.len(), 2);
    assert_eq!(str_of(&d.entries[1].1), Some("0.117.0"));
}

#[test]
fn inject_without_dependencies_is_missing() {
    let mut doc = table(vec![("package", Value::Table(Table::new()))]);
    let r = insert_stdx_dep(&mut doc, &StdxOpt::Version(s("1")));
    assert_eq!(r, Err(InjectError::Shape(ShapeError::Missing)));
    assert_eq!(doc.entries.len(), 1);
}

#[test]
fn inject_with_dependencies_not_a_table_is_wrong_type() {
    let mut doc = table(vec![("dependencies", Value::Str(s("none")))]);
    let r = insert_stdx_dep(&mut doc, &StdxOpt::Version(s("1")));
    assert_eq!(r, Err(InjectError::Shape(ShapeError::WrongType)));
    assert_eq!(str_of(&doc.entries[0].1), Some("none"));
}

#[test]
fn packages_shapes() {
    let lock = table(vec![("package", Value::Array(vec![]))]);
    assert_eq!(get_packages(&lock).map(|p| p.len()), Ok(0));
    let wrong = table(vec![("package", Value::Int(3))]);
    assert_eq!(get_packages(&wrong).map(|p| p.len()), Err(ShapeError::WrongType));
    assert_eq!(get_packages(&Table::new()).map(|p| p.len()), Err(ShapeError::Missing));
}

#[test]
fn extract_name_of_entries() {
    let named = Value::Table(table(vec![("name", Value::Str(s("a"))), ("version", Value::Str(s("1")))]));
    assert_eq!(extract_name(&named).map(|n| n.as_str()), Some("a"));
    let unnamed = Value::Table(table(vec![("version", Value::Str(s("1")))]));
    assert_eq!(extract_name(&unnamed), None);
    let not_string = Value::Table(table(vec![("name", Value::Int(1))]));
    assert_eq!(extract_name(&not_string), None);
    assert_eq!(extract_name(&Value::Str(s("a"))), None);
}

#[test]
fn version_takes_precedence_over_git() {
    let args = Args {
        cmd_test: true,
        cmd_dupes: false,
        flag_stdxgit: Some(s("https://example.org/stdx.git")),
        flag_stdxversion: Some(s("0.117.0")),
    };
    assert_eq!(StdxOpt::from(&args), StdxOpt::Version(s("0.117.0")));
    let args = Args { flag_stdxversion: None, ..args };
    assert_eq!(StdxOpt::from(&args), StdxOpt::Git(s("https://example.org/stdx.git")));
}

#[test]
fn existing_dependency_names_what_stood_in_the_way() {
    let mut doc = manifest_with_foo();
    assert_eq!(inject(&mut doc, &s("foo"), &StdxOpt::Version(s("2.0"))), Err(InjectError::AlreadyPresent));
    assert_eq!(existing_dependency(&doc, &s("foo")).and_then(str_of), Some("1.0"));
    assert!(existing_dependency(&doc, &s("bar")).is_none());
    assert!(existing_dependency(&Table::new(), &s("foo")).is_none());
}
