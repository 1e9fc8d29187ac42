use anytask::events::{AmendEntry, DetailsAmend, DetailsSet};
use anytask::fields::{Fields, FieldValue};
use anytask::id_map::IdMap;
use anytask::set_meta::{
    apply_list_change, apply_list_changes, find_key, insert_pos_by_id, Block, DataView,
    DataviewContent, Keyed, ListChange, ObjectViewData, OpenError, SetMetaState, ViewDelete,
    ViewFields, ViewOrder, ViewSet, ViewUpdate,
};

fn k(id: &str, item: u32) -> Keyed<u32> {
    Keyed { id: id.to_string(), item }
}

fn ids_of(items: &Vec<Keyed<u32>>) -> Vec<String> {
    items.iter().map(|x| x.id.clone()).collect()
}

fn strs(xs: &[&str]) -> Vec<String> {
    xs.iter().map(|x| x.to_string()).collect()
}

fn view(id: &str) -> DataView<u32, u8> {
    DataView { id: id.to_string(), name: id.to_uppercase(), filters: vec![], sorts: vec![] }
}

fn view_ids(st: &SetMetaState<u32, u8>) -> Vec<String> {
    st.views.iter().map(|v| v.id.clone()).collect()
}

#[test]
fn insert_position_rules() {
    let items = vec![k("a", 1), k("b", 2)];
    assert_eq!(insert_pos_by_id("", &items), 0);
    assert_eq!(insert_pos_by_id("a", &items), 1);
    assert_eq!(insert_pos_by_id("b", &items), 2);
    assert_eq!(insert_pos_by_id("zz", &items), 0);
    assert_eq!(find_key(&items, "b"), Some(1));
    assert_eq!(find_key(&items, "c"), None);
}

#[test]
fn list_change_add_and_remove() {
    let mut items = vec![k("a", 1), k("b", 2)];
    apply_list_change(&mut items, ListChange::Add { after_id: "a".to_string(), items: vec![k("x", 9), k("y", 8)] });
    assert_eq!(ids_of(&items), strs(&["a", "x", "y", "b"]));
    apply_list_change(&mut items, ListChange::Add { after_id: "missing".to_string(), items: vec![k("z", 7)] });
    assert_eq!(ids_of(&items), strs(&["z", "a", "x", "y", "b"]));
    apply_list_change(&mut items, ListChange::Remove { ids: strs(&["x", "z", "nope"]) });
    assert_eq!(ids_of(&items), strs(&["a", "y", "b"]));
}

#[test]
fn list_change_update_first_match() {
    let mut items = vec![k("a", 1), k("b", 2), k("b", 3)];
    apply_list_change(&mut items, ListChange::Update { id: "b".to_string(), item: Some(k("b", 20)) });
    assert_eq!(items, vec![k("a", 1), k("b", 20), k("b", 3)]);
    apply_list_change(&mut items, ListChange::Update { id: "a".to_string(), item: None });
    assert_eq!(items[0], k("a", 1));
    apply_list_change(&mut items, ListChange::Update { id: "c".to_string(), item: Some(k("c", 5)) });
    assert_eq!(items.len(), 3);
}

#[test]
fn list_change_move() {
    let mut items = vec![k("a", 1), k("b", 2), k("c", 3), k("d", 4)];
    apply_list_change(&mut items, ListChange::Move { after_id: "d".to_string(), ids: strs(&["b", "a", "q"]) });
    assert_eq!(ids_of(&items), strs(&["c", "d", "b", "a"]));
    apply_list_change(&mut items, ListChange::Move { after_id: String::new(), ids: strs(&["a"]) });
    assert_eq!(ids_of(&items), strs(&["a", "c", "d", "b"]));
}

#[test]
fn list_changes_in_order_skipping_missing() {
    let mut items = vec![k("a", 1)];
    apply_list_changes(&mut items, vec![
        Some(ListChange::Add { after_id: "a".to_string(), items: vec![k("b", 2)] }),
        None,
        Some(ListChange::Remove { ids: strs(&["a"]) }),
    ]);
    assert_eq!(items, vec![k("b", 2)]);
}

#[test]
fn add_then_remove_gives_back_items() {
    let original = vec![k("a", 1), k("b", 2)];
    let mut items = original.clone();
    apply_list_change(&mut items, ListChange::Add { after_id: "a".to_string(), items: vec![k("n", 5)] });
    apply_list_change(&mut items, ListChange::Remove { ids: strs(&["n"]) });
    assert_eq!(items, original);
}

#[test]
fn set_and_amend_details() {
    let mut st: SetMetaState<u32, u8> = SetMetaState::new();
    let mut f: Fields = IdMap::new();
    f.insert("name".to_string(), FieldValue::Text("Tasks".to_string()));
    f.insert("setOf".to_string(), FieldValue::List(vec![FieldValue::Text("task".to_string())]));
    st.handle_set(DetailsSet { id: "s".to_string(), sub_ids: vec![], details: Some(f) });
    assert_eq!(st.name, "Tasks");
    assert_eq!(st.set_of, strs(&["task"]));
    st.handle_set(DetailsSet { id: "s".to_string(), sub_ids: vec![], details: None });
    assert_eq!(st.name, "Tasks");
    st.handle_amend(DetailsAmend {
        id: "s".to_string(),
        sub_ids: vec![],
        details: vec![
            AmendEntry { key: "name".to_string(), value: None },
            AmendEntry { key: "setOf".to_string(), value: Some(FieldValue::List(vec![
                FieldValue::Text("a".to_string()),
                FieldValue::Text("b".to_string()),
            ])) },
        ],
    });
    assert_eq!(st.name, "");
    assert_eq!(st.set_of, strs(&["a", "b"]));
}

#[test]
fn view_set_replaces_or_appends() {
    let mut st: SetMetaState<u32, u8> = SetMetaState::new();
    st.handle_view_set(ViewSet { view_id: "v1".to_string(), view: Some(view("v1")) });
    st.handle_view_set(ViewSet { view_id: "v2".to_string(), view: Some(view("v2")) });
    let mut renamed = view("v1");
    renamed.name = "Board".to_string();
    st.handle_view_set(ViewSet { view_id: "v1".to_string(), view: Some(renamed) });
    assert_eq!(view_ids(&st), strs(&["v1", "v2"]));
    assert_eq!(st.views[0].name, "Board");
    st.handle_view_set(ViewSet { view_id: "v3".to_string(), view: None });
    assert_eq!(st.views.len(), 2);
}

#[test]
fn view_delete_moves_active_view() {
    let mut st: SetMetaState<u32, u8> = SetMetaState::new();
    st.load_opened("set1", None, vec![view("v1"), view("v2")], String::new());
    assert_eq!(st.active_view_id, "v1");
    assert_eq!(st.id, "set1");
    st.handle_view_delete(ViewDelete { view_id: "v1".to_string() });
    assert_eq!(view_ids(&st), strs(&["v2"]));
    assert_eq!(st.active_view_id, "v2");
    st.handle_view_delete(ViewDelete { view_id: "v2".to_string() });
    assert!(st.views.is_empty());
    assert_eq!(st.active_view_id, "");
}

#[test]
fn view_delete_of_other_view_keeps_active() {
    let mut st: SetMetaState<u32, u8> = SetMetaState::new();
    st.load_opened("set1", None, vec![view("v1"), view("v2")], "v2".to_string());
    assert_eq!(st.active_view_id, "v2");
    st.handle_view_delete(ViewDelete { view_id: "v1".to_string() });
    assert_eq!(st.active_view_id, "v2");
}

#[test]
fn view_update_applies_changes() {
    let mut st: SetMetaState<u32, u8> = SetMetaState::new();
    st.load_opened("set1", None, vec![view("v1"), view("v2")], String::new());
    st.handle_view_update(ViewUpdate {
        view_id: "v2".to_string(),
        fields: Some(ViewFields { name: "Renamed".to_string() }),
        filter: vec![Some(ListChange::Add { after_id: String::new(), items: vec![k("f1", 1)] })],
        sort: vec![Some(ListChange::Add { after_id: String::new(), items: vec![Keyed { id: "s1".to_string(), item: 3u8 }] })],
    });
    assert_eq!(st.views[1].name, "Renamed");
    assert_eq!(ids_of(&st.views[1].filters), strs(&["f1"]));
    assert_eq!(st.views[1].sorts.len(), 1);
    assert_eq!(st.views[0], view("v1"));
    let before = st.clone();
    st.handle_view_update(ViewUpdate { view_id: "nope".to_string(), fields: None, filter: vec![], sort: vec![] });
    assert_eq!(st, before);
}

#[test]
fn view_order_sorts_stably() {
    let mut st: SetMetaState<u32, u8> = SetMetaState::new();
    st.load_opened("set1", None, vec![view("a"), view("b"), view("c"), view("d")], String::new());
    st.handle_view_order(ViewOrder { view_ids: strs(&["c", "a"]) });
    assert_eq!(view_ids(&st), strs(&["c", "a", "b", "d"]));
}

fn block(id: &str, views: Option<Vec<DataView<u32, u8>>>, active: &str) -> Block<u32, u8> {
    Block {
        id: id.to_string(),
        dataview: views.map(|v| DataviewContent { views: v, active_view: active.to_string() }),
    }
}

#[test]
fn open_reads_dataview_block() {
    let mut st: SetMetaState<u32, u8> = SetMetaState::new();
    let mut f: Fields = IdMap::new();
    f.insert("name".to_string(), FieldValue::Text("Tasks".to_string()));
    f.insert("setOf".to_string(), FieldValue::List(vec![FieldValue::Text("task".to_string())]));
    let ov = ObjectViewData {
        details: vec![Some(f), None],
        blocks: vec![
            block("header", None, ""),
            block("dataview", Some(vec![view("v1"), view("v2")]), "v2"),
            block("dataview", Some(vec![view("v9")]), ""),
        ],
    };
    assert_eq!(st.handle_open("set1", Some(ov)), Ok(()));
    assert_eq!(st.id, "set1");
    assert_eq!(st.name, "Tasks");
    assert_eq!(st.set_of, strs(&["task"]));
    assert_eq!(view_ids(&st), strs(&["v1", "v2"]));
    assert_eq!(st.active_view_id, "v2");
}

#[test]
fn open_without_active_view_takes_first() {
    let mut st: SetMetaState<u32, u8> = SetMetaState::new();
    let ov = ObjectViewData { details: vec![], blocks: vec![block("dataview", Some(vec![view("a"), view("b")]), "")] };
    assert_eq!(st.handle_open("s", Some(ov)), Ok(()));
    assert_eq!(st.name, "");
    assert_eq!(st.active_view_id, "a");
}

#[test]
fn open_errors_leave_state() {
    let mut st: SetMetaState<u32, u8> = SetMetaState::new();
    st.load_opened("keep", None, vec![view("k")], String::new());
    let before = st.clone();
    assert_eq!(st.handle_open("x", None), Err(OpenError::MissingObjectView));
    let no_block = ObjectViewData { details: vec![], blocks: vec![block("header", None, "")] };
    assert_eq!(st.handle_open("x", Some(no_block)), Err(OpenError::NoViews));
    let no_dv = ObjectViewData { details: vec![], blocks: vec![block("dataview", None, "")] };
    assert_eq!(st.handle_open("x", Some(no_dv)), Err(OpenError::NoDataview));
    assert_eq!(st, before);
}
