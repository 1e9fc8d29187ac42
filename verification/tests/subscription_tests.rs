use anytask::events::{AmendEntry, DetailsAmend, DetailsSet, SubscriptionAdd, SubscriptionRemove};
use anytask::fields::{Fields, FieldValue};
use anytask::id_map::IdMap;
use anytask::list_objects::{parse_object_details, with_id_key, ListObjectsState};
use anytask::sets::SetsState;
use anytask::spaces::{parse_space_details, SpacesState};

fn text_fields(pairs: &[(&str, &str)]) -> Fields {
    let mut f: Fields = IdMap::new();
    for (k, v) in pairs {
        f.insert(k.to_string(), FieldValue::Text(v.to_string()));
    }
    f
}

fn add(id: &str, after: &str, sub: &str) -> SubscriptionAdd {
    SubscriptionAdd { id: id.to_string(), after_id: after.to_string(), sub_id: sub.to_string() }
}

fn amend(id: &str, entries: Vec<(&str, Option<FieldValue>)>) -> DetailsAmend {
    DetailsAmend {
        id: id.to_string(),
        sub_ids: vec![],
        details: entries
            .into_iter()
            .map(|(k, v)| AmendEntry { key: k.to_string(), value: v })
            .collect(),
    }
}

#[test]
fn subscription_ids() {
    assert!(SpacesState::matches_sub_id("spaces"));
    assert!(!SpacesState::matches_sub_id("spaces-1"));
    assert_eq!(SpacesState::sub_id(), "spaces");
    assert_eq!(SetsState::sub_id("s1"), "sets-s1");
    assert!(SetsState::matches_sub_id("sets-s1"));
    assert!(!SetsState::matches_sub_id("set-s1"));
    assert_eq!(ListObjectsState::sub_id("l1"), "list-l1");
    assert!(ListObjectsState::matches_sub_id("list-l1"));
    assert!(!ListObjectsState::matches_sub_id("lis"));
}

#[test]
fn spaces_add_set_amend_remove() {
    let mut st = SpacesState::new();
    st.handle_add(add("a", "", "spaces"));
    st.handle_add(add("b", "a", "spaces"));
    st.handle_add(add("c", "", "spaces"));
    assert_eq!(st.order, vec!["c".to_string(), "a".to_string(), "b".to_string()]);
    st.handle_set(DetailsSet {
        id: "a".to_string(),
        sub_ids: vec!["spaces".to_string()],
        details: Some(text_fields(&[("name", "Home"), ("targetSpaceId", "sp-a"), ("iconImage", "img")])),
    });
    let a = st.details.get("a").unwrap();
    assert_eq!(a.object_id, "a");
    assert_eq!(a.name, "Home");
    assert_eq!(a.target_space_id, "sp-a");
    assert_eq!(a.icon_image, "img");
    assert_eq!(a.description, "");
    st.handle_amend(amend("a", vec![
        ("name", Some(FieldValue::Text("Work".to_string()))),
        ("description", Some(FieldValue::Number(1))),
        ("other", None),
    ]));
    let a = st.details.get("a").unwrap();
    assert_eq!(a.name, "Work");
    assert_eq!(a.description, "");
    st.handle_amend(amend("zzz", vec![("name", Some(FieldValue::Text("x".to_string())))]));
    assert!(st.details.get("zzz").is_none());
    st.handle_remove(SubscriptionRemove { id: "a".to_string(), sub_id: "spaces".to_string() });
    assert_eq!(st.order, vec!["c".to_string(), "b".to_string()]);
    assert!(st.details.get("a").is_none());
}

#[test]
fn spaces_set_without_details_is_blank() {
    let mut st = SpacesState::new();
    st.handle_set(DetailsSet { id: "x".to_string(), sub_ids: vec![], details: None });
    let x = st.details.get("x").unwrap();
    assert_eq!(x.object_id, "x");
    assert_eq!(x.name, "");
    let d = parse_space_details("y", &text_fields(&[("description", "about")]));
    assert_eq!(d.description, "about");
    assert_eq!(d.object_id, "y");
}

#[test]
fn spaces_reset_from_records() {
    let mut st = SpacesState::new();
    st.handle_add(add("old", "", "spaces"));
    st.reset_from_records(vec![
        text_fields(&[("id", "s1"), ("name", "One")]),
        text_fields(&[("id", "s2"), ("name", "Two")]),
    ]);
    assert_eq!(st.order, vec!["s1".to_string(), "s2".to_string()]);
    assert_eq!(st.details.get("s2").unwrap().name, "Two");
    assert!(st.details.get("old").is_none());
}

#[test]
fn sets_set_and_amend() {
    let mut st = SetsState::new();
    let mut f = text_fields(&[("name", "Tasks")]);
    f.insert("resolvedLayout".to_string(), FieldValue::Number(3));
    st.handle_set(DetailsSet { id: "set1".to_string(), sub_ids: vec![], details: Some(f) });
    let s = st.details.get("set1").unwrap();
    assert_eq!(s.name, "Tasks");
    assert_eq!(s.layout, 3);
    st.handle_amend(amend("set1", vec![
        ("name", Some(FieldValue::Text("Todo".to_string()))),
        ("resolvedLayout", None),
    ]));
    let s = st.details.get("set1").unwrap();
    assert_eq!(s.name, "Todo");
    assert_eq!(s.layout, 0);
    st.handle_add(add("set1", "", "sets-x"));
    st.handle_remove(SubscriptionRemove { id: "set1".to_string(), sub_id: "sets-x".to_string() });
    assert!(st.order.is_empty());
    assert!(st.details.get("set1").is_none());
}

#[test]
fn list_objects_keep_fields_and_amend() {
    let mut st = ListObjectsState::new();
    st.handle_set(DetailsSet {
        id: "o1".to_string(),
        sub_ids: vec!["list-l".to_string()],
        details: Some(text_fields(&[("name", "Buy milk")])),
    });
    assert_eq!(st.details.get("o1").unwrap().name, "Buy milk");
    st.handle_amend(amend("o1", vec![
        ("done", Some(FieldValue::Bool(true))),
        ("name", None),
    ]));
    let o = st.details.get("o1").unwrap();
    assert_eq!(o.name, "");
    assert_eq!(o.fields.get("done"), Some(&FieldValue::Bool(true)));
    assert_eq!(o.fields.get("name"), Some(&FieldValue::Empty));
    let p = parse_object_details("o2", text_fields(&[("name", "N")]));
    assert_eq!(p.id, "o2");
    assert_eq!(p.name, "N");
}

#[test]
fn with_id_key_puts_id_first_once() {
    assert_eq!(with_id_key(vec!["name".to_string()]), vec!["id".to_string(), "name".to_string()]);
    assert_eq!(
        with_id_key(vec!["name".to_string(), "id".to_string()]),
        vec!["name".to_string(), "id".to_string()]
    );
    assert_eq!(with_id_key(vec![]), vec!["id".to_string()]);
}
