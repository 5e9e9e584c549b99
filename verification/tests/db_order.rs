use backuper::db::{cell_value, Cell, DumpValue, MaterialTypesEnum};
use std::collections::HashMap;

use backuper::db;

fn refs(pairs: &[(&str, &str)]) -> HashMap<String, String> {
    pairs.iter().map(|(a, b)| (a.to_string(), b.to_string())).collect()
}

#[test]
fn test_define_tables_order_most_referenced_first() {
    let tables: Vec<String> = ["a", "b", "c", "d", "f"].iter().map(|s| s.to_string()).collect();
    let table_refs = refs(&[("a", "b"), ("c", "b"), ("d", "b"), ("f", "a"), ("b", "a")]);
    let order = db::define_tables_order(tables, table_refs);
    assert_eq!(order.len(), 5);
    assert_eq!(order[0], "b");
    assert_eq!(order[1], "a");
    let mut rest: Vec<String> = order[2..].to_vec();
    rest.sort();
    assert_eq!(rest, vec!["c", "d", "f"]);
}

#[test]
fn test_define_tables_order_adds_referenced_tables_not_listed() {
    let tables: Vec<String> = vec!["a".to_string()];
    let table_refs = refs(&[("a", "z")]);
    let order = db::define_tables_order(tables, table_refs);
    assert_eq!(order, vec!["z".to_string(), "a".to_string()]);
}

#[test]
fn test_define_tables_order_empty() {
    let order = db::define_tables_order(Vec::new(), HashMap::new());
    assert!(order.is_empty());
}

#[test]
fn test_define_tables_order_no_duplicates() {
    let tables: Vec<String> = ["x", "x", "y"].iter().map(|s| s.to_string()).collect();
    let order = db::define_tables_order(tables, HashMap::new());
    let mut sorted = order.clone();
    sorted.sort();
    assert_eq!(sorted, vec!["x".to_string(), "y".to_string()]);
}

#[test]
fn test_create_filename_with_folder() {
    let f = db::create_filename("tdb", &Some("tf".to_string())).unwrap();

    assert!(f.starts_with("tf/backup_tdb_"));
    assert!(f.ends_with(".dump"));
}

#[test]
fn test_create_filename_without_folder() {
    let f = db::create_filename("tdb", &None).unwrap();

    assert!(f.starts_with("backup_tdb_"));
    assert!(f.ends_with(".dump"));
}

#[test]
fn test_backup_filename_exact() {
    let f = db::backup_filename("shop", &Some("/var/dumps".to_string()), "2024-01-02_03:04:05");
    assert_eq!(f, "/var/dumps/backup_shop_2024-01-02_03:04:05.dump");
    let g = db::backup_filename("shop", &None, "T");
    assert_eq!(g, "backup_shop_T.dump");
}

#[test]
fn test_column_kind() {
    assert_eq!(db::column_kind("INT4"), Some(db::ColumnKind::Int4));
    assert_eq!(db::column_kind("INT8"), Some(db::ColumnKind::Int8));
    assert_eq!(db::column_kind("VARCHAR"), Some(db::ColumnKind::Text));
    assert_eq!(db::column_kind("TEXT"), Some(db::ColumnKind::Text));
    assert_eq!(db::column_kind("UUID"), Some(db::ColumnKind::Uuid));
    assert_eq!(db::column_kind("BOOL"), Some(db::ColumnKind::Bool));
    assert_eq!(db::column_kind("TIMESTAMP"), Some(db::ColumnKind::Timestamp));
    assert_eq!(db::column_kind("JSONB"), Some(db::ColumnKind::Json));
    assert_eq!(db::column_kind("JSON"), Some(db::ColumnKind::Json));
    assert_eq!(db::column_kind("DATE"), Some(db::ColumnKind::Date));
    assert_eq!(db::column_kind("materialtypesenum"), Some(db::ColumnKind::MaterialType));
    assert_eq!(db::column_kind("int4"), None);
    assert_eq!(db::column_kind("FLOAT8"), None);
}

#[test]
fn test_material_type_text() {
    assert_eq!(db::MaterialTypesEnum::Book.to_string(), "book");
    assert_eq!(db::MaterialTypesEnum::Article.to_string(), "article");
    assert_eq!(db::MaterialTypesEnum::Course.to_string(), "course");
    assert_eq!(db::MaterialTypesEnum::Lecture.to_string(), "lecture");
    assert_eq!(db::MaterialTypesEnum::Audiobook.to_string(), "audiobook");
}

#[test]
fn test_select_all_query() {
    assert_eq!(db::select_all_query("users"), "SELECT * FROM users");
}

#[test]
fn test_cell_value() {
    assert_eq!(cell_value(Cell::Int4(Some(-7))), DumpValue::Number(-7));
    assert_eq!(cell_value(Cell::Int8(Some(1 << 40))), DumpValue::Number(1 << 40));
    assert_eq!(cell_value(Cell::Text(Some("hi".to_string()))), DumpValue::Str("hi".to_string()));
    assert_eq!(cell_value(Cell::Uuid(Some("u".to_string()))), DumpValue::Str("u".to_string()));
    assert_eq!(cell_value(Cell::Bool(Some(true))), DumpValue::Bool(true));
    assert_eq!(
        cell_value(Cell::Timestamp(Some("2024-01-02 03:04:05".to_string()))),
        DumpValue::Str("2024-01-02 03:04:05".to_string())
    );
    assert_eq!(cell_value(Cell::Date(Some("2024-01-02".to_string()))), DumpValue::Str("2024-01-02".to_string()));
    assert_eq!(
        cell_value(Cell::MaterialType(Some(MaterialTypesEnum::Audiobook))),
        DumpValue::Str("audiobook".to_string())
    );
    assert_eq!(cell_value(Cell::Int4(None)), DumpValue::Null);
    assert_eq!(cell_value(Cell::Text(None)), DumpValue::Null);
    assert_eq!(cell_value(Cell::MaterialType(None)), DumpValue::Null);
}
