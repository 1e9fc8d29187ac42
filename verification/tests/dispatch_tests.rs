use anytask::dispatch::{text_contains, ClientState, Message};
use anytask::events::{AmendEntry, DetailsAmend, DetailsSet, SubscriptionAdd, SubscriptionRemove};
use anytask::fields::{Fields, FieldValue};
use anytask::id_map::IdMap;
use anytask::list_objects::ListObjectsState;
use anytask::set_meta::{DataView, SetMetaState, ViewDelete, ViewSet};
use anytask::sets::SetsState;
use anytask::spaces::SpacesState;

type State = ClientState<u32, u8>;

fn state() -> State {
    ClientState {
        spaces: SpacesState::new(),
        sets: SetsState::new(),
        list_objects: ListObjectsState::new(),
        set_meta: SetMetaState::new(),
    }
}

fn named(name: &str) -> Option<Fields> {
    let mut f: Fields = IdMap::new();
    f.insert("name".to_string(), FieldValue::Text(name.to_string()));
    Some(f)
}

fn set(id: &str, subs: &[&str], name: &str) -> Message<u32, u8> {
    Message::DetailsSet(DetailsSet {
        id: id.to_string(),
        sub_ids: subs.iter().map(|s| s.to_string()).collect(),
        details: named(name),
    })
}

fn add(id: &str, sub: &str) -> Message<u32, u8> {
    Message::SubscriptionAdd(SubscriptionAdd { id: id.to_string(), after_id: String::new(), sub_id: sub.to_string() })
}

#[test]
fn contains_text() {
    assert!(text_contains("set-abc-1", "abc"));
    assert!(text_contains("abc", ""));
    assert!(!text_contains("ab", "abc"));
    assert!(!text_contains("xyz", "q"));
}

#[test]
fn details_are_routed_by_subscription() {
    let mut st = state();
    st.handle_msg("ctx", set("sp", &["spaces"], "Space"));
    st.handle_msg("ctx", set("st", &["sets-1"], "Set"));
    st.handle_msg("ctx", set("ob", &["other", "list-9"], "Obj"));
    st.handle_msg("ctx", set("ig", &["nothing"], "Ignored"));
    assert_eq!(st.spaces.details.get("sp").unwrap().name, "Space");
    assert!(st.spaces.details.get("st").is_none());
    assert_eq!(st.sets.details.get("st").unwrap().name, "Set");
    assert_eq!(st.list_objects.details.get("ob").unwrap().name, "Obj");
    assert!(st.list_objects.details.get("ig").is_none());
    assert!(st.sets.details.get("ig").is_none());
}

#[test]
fn spaces_subscription_wins_over_others() {
    let mut st = state();
    st.handle_msg("ctx", set("x", &["list-1", "spaces"], "Both"));
    assert!(st.spaces.details.get("x").is_some());
    assert!(st.list_objects.details.get("x").is_none());
}

#[test]
fn details_without_subscription_go_to_open_set() {
    let mut st = state();
    st.set_meta.id = "set-42".to_string();
    st.handle_msg("42", set("set-42", &[], "My set"));
    assert_eq!(st.set_meta.name, "My set");
    st.handle_msg("other", set("set-42", &[], "Not mine"));
    assert_eq!(st.set_meta.name, "My set");
}

#[test]
fn amend_is_routed() {
    let mut st = state();
    st.handle_msg("ctx", set("ob", &["list-1"], "Obj"));
    st.handle_msg("ctx", Message::DetailsAmend(DetailsAmend {
        id: "ob".to_string(),
        sub_ids: vec!["list-1".to_string()],
        details: vec![AmendEntry { key: "done".to_string(), value: Some(FieldValue::Bool(true)) }],
    }));
    assert_eq!(st.list_objects.details.get("ob").unwrap().fields.get("done"), Some(&FieldValue::Bool(true)));
}

#[test]
fn subscription_changes_are_routed() {
    let mut st = state();
    st.handle_msg("ctx", add("s1", "spaces"));
    st.handle_msg("ctx", add("t1", "sets-1"));
    st.handle_msg("ctx", add("o1", "list-2"));
    st.handle_msg("ctx", add("z1", "unknown"));
    assert_eq!(st.spaces.order, vec!["s1".to_string()]);
    assert_eq!(st.sets.order, vec!["t1".to_string()]);
    assert_eq!(st.list_objects.order, vec!["o1".to_string()]);
    st.handle_msg("ctx", set("o1", &["list-2"], "O"));
    st.handle_msg("ctx", Message::SubscriptionRemove(SubscriptionRemove { id: "o1".to_string(), sub_id: "list-2".to_string() }));
    assert!(st.list_objects.order.is_empty());
    assert!(st.list_objects.details.get("o1").is_none());
}

#[test]
fn view_events_go_to_open_set() {
    let mut st = state();
    let v = DataView { id: "v1".to_string(), name: "Grid".to_string(), filters: vec![], sorts: vec![] };
    st.handle_msg("ctx", Message::ViewSet(ViewSet { view_id: "v1".to_string(), view: Some(v) }));
    assert_eq!(st.set_meta.views.len(), 1);
    st.handle_msg("ctx", Message::ViewDelete(ViewDelete { view_id: "v1".to_string() }));
    assert!(st.set_meta.views.is_empty());
    st.handle_msg("ctx", Message::Other);
    assert!(st.spaces.order.is_empty());
}
