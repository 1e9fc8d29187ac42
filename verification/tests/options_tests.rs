use anytask::events::{AmendEntry, DetailsAmend, DetailsSet};
use anytask::fields::{Fields, FieldValue};
use anytask::id_map::IdMap;
use anytask::properties::{get_property_id_by_key, PropertyRef};
use anytask::relation_options::{status_option_id, RelationOptionsState};
use anytask::responses::{check_response, ResponseError};

fn option(id: &str, relation: &str, name: &str, color: &str) -> DetailsSet {
    let mut f: Fields = IdMap::new();
    f.insert("relationKey".to_string(), FieldValue::Text(relation.to_string()));
    f.insert("name".to_string(), FieldValue::Text(name.to_string()));
    f.insert("relationOptionColor".to_string(), FieldValue::Text(color.to_string()));
    DetailsSet { id: id.to_string(), sub_ids: vec![], details: Some(f) }
}

#[test]
fn options_are_listed_per_relation() {
    let mut st = RelationOptionsState::new();
    st.handle_set(option("o1", "status", "Open", "red"));
    st.handle_set(option("o2", "status", "Done", "green"));
    st.handle_set(option("t1", "tag", "Work", "blue"));
    assert_eq!(st.by_relation.get("status").unwrap(), &vec!["o1".to_string(), "o2".to_string()]);
    assert_eq!(st.by_relation.get("tag").unwrap(), &vec!["t1".to_string()]);
    let o2 = st.details.get("o2").unwrap();
    assert_eq!(o2.name, "Done");
    assert_eq!(o2.color, "green");
    assert_eq!(o2.relation_key, "status");
}

#[test]
fn option_amend_changes_name_and_color() {
    let mut st = RelationOptionsState::new();
    st.handle_set(option("o1", "status", "Open", "red"));
    st.handle_amend(DetailsAmend {
        id: "o1".to_string(),
        sub_ids: vec![],
        details: vec![
            AmendEntry { key: "name".to_string(), value: Some(FieldValue::Text("Closed".to_string())) },
            AmendEntry { key: "relationOptionColor".to_string(), value: None },
            AmendEntry { key: "relationKey".to_string(), value: Some(FieldValue::Text("x".to_string())) },
        ],
    });
    let o1 = st.details.get("o1").unwrap();
    assert_eq!(o1.name, "Closed");
    assert_eq!(o1.color, "");
    assert_eq!(o1.relation_key, "status");
    st.handle_amend(DetailsAmend { id: "nope".to_string(), sub_ids: vec![], details: vec![] });
    assert!(st.details.get("nope").is_none());
}

#[test]
fn status_name_reads_text_or_first_list_item() {
    let mut st = RelationOptionsState::new();
    st.handle_set(option("o1", "status", "Open", "red"));
    assert_eq!(st.status_name(&FieldValue::Text("o1".to_string())), "Open");
    let list = FieldValue::List(vec![FieldValue::Text("o1".to_string()), FieldValue::Text("o2".to_string())]);
    assert_eq!(status_option_id(&list), Some("o1".to_string()));
    assert_eq!(status_option_id(&FieldValue::Number(1)), None);
    assert_eq!(st.status_name(&list), "Open");
    assert_eq!(st.status_name(&FieldValue::List(vec![FieldValue::Number(1)])), "");
    assert_eq!(st.status_name(&FieldValue::List(vec![])), "");
    assert_eq!(st.status_name(&FieldValue::Text("unknown".to_string())), "");
    assert_eq!(st.status_name(&FieldValue::Number(3)), "");
}

#[test]
fn property_id_by_key_first_match_decides() {
    let props = vec![
        PropertyRef { key: "name".to_string(), id: Some("p-name".to_string()) },
        PropertyRef { key: "done".to_string(), id: None },
        PropertyRef { key: "done".to_string(), id: Some("p-done".to_string()) },
    ];
    assert_eq!(get_property_id_by_key(&props, "name"), Some("p-name".to_string()));
    assert_eq!(get_property_id_by_key(&props, "done"), None);
    assert_eq!(get_property_id_by_key(&props, "status"), None);
    assert_eq!(get_property_id_by_key(&vec![], "name"), None);
}

#[test]
fn check_response_by_code() {
    assert_eq!(check_response(None), Ok(()));
    let ok = ResponseError { code: 0, description: "fine".to_string() };
    assert_eq!(check_response(Some(ok)), Ok(()));
    let bad = ResponseError { code: 3, description: "no access".to_string() };
    assert_eq!(check_response(Some(bad.clone())), Err(bad));
}

#[test]
fn status_name_does_not_look_up_without_an_id() {
    let mut st = RelationOptionsState::new();
    st.handle_set(option("", "status", "Nameless", "grey"));
    assert_eq!(st.status_name(&FieldValue::Text(String::new())), "Nameless");
    assert_eq!(st.status_name(&FieldValue::Number(3)), "");
    assert_eq!(st.status_name(&FieldValue::List(vec![])), "");
    assert_eq!(st.status_name(&FieldValue::List(vec![FieldValue::Bool(true)])), "");
}
