use anytask::fields::{Fields, FieldValue};
use anytask::id_map::IdMap;
use anytask::relation::{
    relation_info_from_record, relations_from_records, value_display, RelationFormat,
    RelationInfo, RelationKey, ValueDisplay,
};

fn record(key: &str, name: &str, format: i64) -> Fields {
    let mut f: Fields = IdMap::new();
    f.insert("relationKey".to_string(), FieldValue::Text(key.to_string()));
    f.insert("name".to_string(), FieldValue::Text(name.to_string()));
    f.insert("relationFormat".to_string(), FieldValue::Number(format));
    f
}

#[test]
fn relation_key_basics() {
    let k = RelationKey("done".to_string());
    assert_eq!(k.as_str(), "done");
    assert_eq!(RelationKey::empty().as_str(), "");
    assert_eq!(RelationKey::default(), RelationKey::empty());
}

#[test]
fn relation_format_codes() {
    assert_eq!(RelationFormat::from_code(0), Some(RelationFormat::Longtext));
    assert_eq!(RelationFormat::from_code(3), Some(RelationFormat::Status));
    assert_eq!(RelationFormat::from_code(4), Some(RelationFormat::Date));
    assert_eq!(RelationFormat::from_code(6), Some(RelationFormat::Checkbox));
    assert_eq!(RelationFormat::from_code(11), Some(RelationFormat::Tag));
    assert_eq!(RelationFormat::from_code(100), Some(RelationFormat::Object));
    assert_eq!(RelationFormat::from_code(12), None);
    assert_eq!(RelationFormat::from_code(-1), None);
}

#[test]
fn relation_info_from_record_reads_fields() {
    let info = relation_info_from_record(&record("done", "Done", 6));
    assert_eq!(info.key, RelationKey("done".to_string()));
    assert_eq!(info.name, "Done");
    assert_eq!(info.format, RelationFormat::Checkbox);
    let unknown = relation_info_from_record(&record("x", "X", 999));
    assert_eq!(unknown.format, RelationFormat::Longtext);
    let empty: Fields = IdMap::new();
    let none = relation_info_from_record(&empty);
    assert_eq!(none.key.as_str(), "");
    assert_eq!(none.format, RelationFormat::Longtext);
}

#[test]
fn relations_from_records_last_wins() {
    let recs = vec![record("a", "A", 1), record("b", "B", 4), record("a", "A2", 3)];
    let m = relations_from_records(&recs);
    let a = m.get("a").unwrap();
    assert_eq!(a.name, "A2");
    assert_eq!(a.format, RelationFormat::Status);
    assert_eq!(m.get("b").unwrap().format, RelationFormat::Date);
    assert!(m.get("c").is_none());
}

#[test]
fn value_display_by_format() {
    let info = |f: RelationFormat| RelationInfo {
        key: RelationKey("k".to_string()),
        name: "K".to_string(),
        format: f,
    };
    assert_eq!(value_display(Some(&info(RelationFormat::Date))), ValueDisplay::Date);
    assert_eq!(value_display(Some(&info(RelationFormat::Checkbox))), ValueDisplay::Checkbox);
    assert_eq!(value_display(Some(&info(RelationFormat::Status))), ValueDisplay::Status);
    assert_eq!(value_display(Some(&info(RelationFormat::Number))), ValueDisplay::Text);
    assert_eq!(value_display(None), ValueDisplay::Text);
}
