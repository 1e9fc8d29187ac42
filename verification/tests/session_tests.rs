use anytask::id_map::IdMap;
use anytask::list_objects::opens_list;
use anytask::properties::register_properties;
use anytask::session::{shown_account, EngineMessage};

#[test]
fn shown_account_takes_first_given_account() {
    let events = vec![
        vec![EngineMessage::Other, EngineMessage::AccountShow(None)],
        vec![],
        vec![
            EngineMessage::Other,
            EngineMessage::AccountShow(Some("acc-1".to_string())),
            EngineMessage::AccountShow(Some("acc-2".to_string())),
        ],
        vec![EngineMessage::AccountShow(Some("acc-3".to_string()))],
    ];
    assert_eq!(shown_account(&events), Some("acc-1".to_string()));
}

#[test]
fn shown_account_none_without_account() {
    assert_eq!(shown_account(&vec![]), None);
    let events = vec![vec![EngineMessage::AccountShow(None), EngineMessage::Other]];
    assert_eq!(shown_account(&events), None);
}

#[test]
fn register_properties_appends_and_shows() {
    let mut order = vec!["name".to_string()];
    let mut show: IdMap<bool> = IdMap::new();
    show.insert("name".to_string(), false);
    show.insert("old".to_string(), false);
    register_properties(&mut order, &mut show, vec!["done".to_string(), "name".to_string()]);
    assert_eq!(order, vec!["name".to_string(), "done".to_string(), "name".to_string()]);
    assert_eq!(show.get("done"), Some(&true));
    assert_eq!(show.get("name"), Some(&true));
    assert_eq!(show.get("old"), Some(&false));
}

#[test]
fn opens_list_for_sets_and_collections() {
    assert!(opens_list(Some("set")));
    assert!(opens_list(Some("collecion")));
    assert!(!opens_list(Some("collection")));
    assert!(!opens_list(Some("task")));
    assert!(!opens_list(None));
}
