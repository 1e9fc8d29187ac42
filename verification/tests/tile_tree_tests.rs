use anytask::relation::RelationKey;
use anytask::tile_tree::{DropZone, NewPaneDrag, Node, NodeId, SplitDirection, TileError, TileTree, HALF_RATIO};
use std::collections::HashMap;

fn fresh() -> TileTree {
    let mut t = TileTree { nodes: HashMap::new(), root: NodeId(7) };
    t.clean();
    t
}

fn key(s: &str) -> RelationKey {
    RelationKey(s.to_string())
}

#[test]
fn clean_leaves_single_name_pane() {
    let t = fresh();
    assert_eq!(t.root, NodeId(0));
    assert_eq!(t.nodes.len(), 1);
    assert_eq!(t.nodes.get(&0), Some(&Node::Pane { parent: None, relation_key: key("name") }));
}

#[test]
fn add_pane_right_of_root() {
    let mut t = fresh();
    t.add_pane_at(NodeId(0), DropZone::Right, key("done"));
    assert_eq!(t.root, NodeId(2));
    assert_eq!(
        t.nodes.get(&2),
        Some(&Node::Split {
            parent: None,
            direction: SplitDirection::Row,
            ratio_per_mille: HALF_RATIO,
            first: NodeId(0),
            second: NodeId(1),
        })
    );
    assert_eq!(t.nodes.get(&1), Some(&Node::Pane { parent: Some(NodeId(2)), relation_key: key("done") }));
    assert_eq!(t.nodes.get(&0).unwrap().parent(), Some(NodeId(2)));
}

#[test]
fn add_pane_top_of_inner_node() {
    let mut t = fresh();
    t.add_pane_at(NodeId(0), DropZone::Right, key("done"));
    t.add_pane_at(NodeId(0), DropZone::Top, key("status"));
    assert_eq!(t.root, NodeId(2));
    assert_eq!(
        t.nodes.get(&4),
        Some(&Node::Split {
            parent: Some(NodeId(2)),
            direction: SplitDirection::Column,
            ratio_per_mille: HALF_RATIO,
            first: NodeId(3),
            second: NodeId(0),
        })
    );
    match t.nodes.get(&2) {
        Some(Node::Split { first, second, .. }) => {
            assert_eq!(*first, NodeId(4));
            assert_eq!(*second, NodeId(1));
        }
        other => panic!("unexpected {:?}", other),
    }
    assert_eq!(t.nodes.get(&0).unwrap().parent(), Some(NodeId(4)));
    assert_eq!(t.nodes.get(&3).unwrap().parent(), Some(NodeId(4)));
}

#[test]
fn add_then_remove_restores_tree() {
    let mut t = fresh();
    t.add_pane_at(NodeId(0), DropZone::Bottom, key("done"));
    let before = t.clone();
    t.add_pane_at(NodeId(1), DropZone::Left, key("status"));
    assert_eq!(t.nodes.len(), 5);
    assert_eq!(t.remove_node(NodeId(3)), Ok(()));
    assert_eq!(t, before);
    let mut u = fresh();
    let first = u.clone();
    u.add_pane_at(NodeId(0), DropZone::Right, key("x"));
    assert_eq!(u.remove_node(NodeId(1)), Ok(()));
    assert_eq!(u, first);
}

#[test]
fn remove_node_errors() {
    let mut t = fresh();
    assert_eq!(t.remove_node(NodeId(9)), Err(TileError::NodeNotFound));
    assert_eq!(t.remove_node(NodeId(0)), Err(TileError::NodeIsRoot));
    t.add_pane_at(NodeId(0), DropZone::Right, key("done"));
    t.nodes.insert(5, Node::Pane { parent: Some(NodeId(1)), relation_key: key("bad") });
    assert_eq!(t.remove_node(NodeId(5)), Err(TileError::ParentNotSplit(NodeId(1))));
}

#[test]
fn remove_unless_root_keeps_root() {
    let mut t = fresh();
    assert_eq!(t.remove_unless_root(NodeId(0)), None);
    assert_eq!(t, fresh());
    t.add_pane_at(NodeId(0), DropZone::Right, key("done"));
    assert_eq!(t.remove_unless_root(NodeId(1)), Some(Ok(())));
    assert_eq!(t, fresh());
}

#[test]
fn set_pane_key_and_ratio() {
    let mut t = fresh();
    t.add_pane_at(NodeId(0), DropZone::Right, key("done"));
    t.set_pane_key(NodeId(1), Some(key("status")));
    assert_eq!(t.nodes.get(&1), Some(&Node::Pane { parent: Some(NodeId(2)), relation_key: key("status") }));
    t.set_pane_key(NodeId(1), None);
    assert_eq!(t.nodes.get(&1), Some(&Node::Pane { parent: Some(NodeId(2)), relation_key: key("") }));
    let before = t.clone();
    t.set_pane_key(NodeId(2), Some(key("x")));
    assert_eq!(t, before);
    t.set_split_ratio(NodeId(2), 250);
    match t.nodes.get(&2) {
        Some(Node::Split { ratio_per_mille, .. }) => assert_eq!(*ratio_per_mille, 250),
        other => panic!("unexpected {:?}", other),
    }
    let before = t.clone();
    t.set_split_ratio(NodeId(1), 100);
    assert_eq!(t, before);
}

#[test]
fn node_parent_accessors() {
    let mut n = Node::Pane { parent: None, relation_key: key("a") };
    assert_eq!(n.parent(), None);
    n.set_parent(Some(NodeId(3)));
    assert_eq!(n.parent(), Some(NodeId(3)));
}

fn dragging(hover: Option<u32>, zone: Option<DropZone>, k: Option<&str>, delete: bool) -> NewPaneDrag {
    NewPaneDrag {
        is_dragging: true,
        hover_node: hover.map(NodeId),
        drop_zone: zone,
        dragging_node: None,
        dragging_key: k.map(key),
        hover_delete: delete,
    }
}

#[test]
fn pane_drop_on_zone_adds_pane() {
    let mut t = fresh();
    let after = t.apply_pane_drop(dragging(Some(0), Some(DropZone::Left), Some("done"), false));
    assert_eq!(after, NewPaneDrag::default());
    assert_eq!(t.root, NodeId(2));
    assert_eq!(t.nodes.get(&1), Some(&Node::Pane { parent: Some(NodeId(2)), relation_key: key("done") }));
    match t.nodes.get(&2) {
        Some(Node::Split { first, second, direction, .. }) => {
            assert_eq!(*first, NodeId(1));
            assert_eq!(*second, NodeId(0));
            assert_eq!(*direction, SplitDirection::Row);
        }
        other => panic!("unexpected {:?}", other),
    }
}

#[test]
fn pane_drop_without_zone_goes_right_of_root() {
    let mut t = fresh();
    t.apply_pane_drop(dragging(None, None, Some("done"), false));
    match t.nodes.get(&2) {
        Some(Node::Split { first, second, .. }) => {
            assert_eq!(*first, NodeId(0));
            assert_eq!(*second, NodeId(1));
        }
        other => panic!("unexpected {:?}", other),
    }
    let mut u = fresh();
    u.apply_pane_drop(dragging(Some(0), None, None, false));
    assert_eq!(u, fresh());
}

#[test]
fn pane_drop_on_delete_or_idle_changes_nothing() {
    let mut t = fresh();
    let r = t.apply_pane_drop(dragging(Some(0), Some(DropZone::Top), Some("done"), true));
    assert_eq!(r, NewPaneDrag::default());
    assert_eq!(t, fresh());
    let idle = NewPaneDrag { hover_delete: true, ..NewPaneDrag::default() };
    let r = t.apply_pane_drop(idle.clone());
    assert_eq!(r, idle);
    assert_eq!(t, fresh());
}

#[test]
fn pane_drop_without_key_adds_empty_pane() {
    let mut t = fresh();
    t.apply_pane_drop(dragging(Some(0), Some(DropZone::Bottom), None, false));
    assert_eq!(t.nodes.get(&1), Some(&Node::Pane { parent: Some(NodeId(2)), relation_key: key("") }));
}

fn consistent(t: &TileTree) -> bool {
    if !t.nodes.contains_key(&t.root.0) {
        return false;
    }
    for (k, n) in &t.nodes {
        match n.parent() {
            None => {
                if *k != t.root.0 {
                    return false;
                }
            }
            Some(p) => {
                if *k == t.root.0 {
                    return false;
                }
                match t.nodes.get(&p.0) {
                    Some(Node::Split { first, second, .. }) => {
                        if first.0 != *k && second.0 != *k {
                            return false;
                        }
                    }
                    _ => return false,
                }
            }
        }
        if let Node::Split { first, second, .. } = n {
            if first == second {
                return false;
            }
            for c in [first, second] {
                match t.nodes.get(&c.0) {
                    Some(child) if child.parent() == Some(NodeId(*k)) => {}
                    _ => return false,
                }
            }
        }
        let mut steps = 0;
        let mut cur = n.parent();
        while let Some(p) = cur {
            steps += 1;
            if steps > t.nodes.len() {
                return false;
            }
            cur = t.nodes.get(&p.0).and_then(|x| x.parent());
        }
    }
    true
}

#[test]
fn edits_keep_the_layout_consistent() {
    let mut t = fresh();
    assert!(consistent(&t));
    t.add_pane_at(NodeId(0), DropZone::Right, key("done"));
    assert!(consistent(&t));
    t.add_pane_at(NodeId(1), DropZone::Top, key("status"));
    assert!(consistent(&t));
    t.add_pane_at(NodeId(0), DropZone::Left, key("tag"));
    assert!(consistent(&t));
    t.set_pane_key(NodeId(3), Some(key("date")));
    assert!(consistent(&t));
    t.set_split_ratio(NodeId(2), 700);
    assert!(consistent(&t));
    assert_eq!(t.remove_node(NodeId(3)), Ok(()));
    assert!(consistent(&t));
    assert_eq!(t.remove_node(NodeId(0)), Ok(()));
    assert!(consistent(&t));
    assert_eq!(t.remove_unless_root(t.root), None);
    assert!(consistent(&t));
}

#[test]
fn drop_zone_hover_and_leave() {
    let mut d = NewPaneDrag { is_dragging: true, ..NewPaneDrag::default() };
    assert!(!d.zone_active(NodeId(1), DropZone::Top));
    d.hover_zone(NodeId(1), DropZone::Top);
    assert!(d.zone_active(NodeId(1), DropZone::Top));
    assert!(!d.zone_active(NodeId(1), DropZone::Left));
    assert!(!d.zone_active(NodeId(2), DropZone::Top));
    d.hover_zone(NodeId(2), DropZone::Left);
    d.leave_zone(NodeId(1), DropZone::Top);
    assert!(d.zone_active(NodeId(2), DropZone::Left));
    d.leave_zone(NodeId(2), DropZone::Left);
    assert_eq!(d.hover_node, None);
    assert_eq!(d.drop_zone, None);
    assert!(d.is_dragging);
}

fn self_parented() -> TileTree {
    let mut nodes = HashMap::new();
    nodes.insert(0, Node::Pane { parent: None, relation_key: key("name") });
    nodes.insert(
        5,
        Node::Split {
            parent: Some(NodeId(5)),
            direction: SplitDirection::Row,
            ratio_per_mille: 300,
            first: NodeId(5),
            second: NodeId(6),
        },
    );
    nodes.insert(6, Node::Pane { parent: Some(NodeId(5)), relation_key: key("done") });
    TileTree { nodes, root: NodeId(0) }
}

#[test]
fn add_then_remove_restores_a_self_parented_split() {
    let original = self_parented();
    let mut t = original.clone();
    t.add_pane_at(NodeId(5), DropZone::Top, key("x"));
    match t.nodes.get(&5) {
        Some(Node::Split { parent, first, .. }) => {
            assert_eq!(*parent, Some(NodeId(8)));
            assert_eq!(*first, NodeId(8));
        }
        other => panic!("unexpected {:?}", other),
    }
    assert_eq!(t.nodes.get(&8).unwrap().parent(), Some(NodeId(5)));
    assert_eq!(t.remove_node(NodeId(7)), Ok(()));
    assert_eq!(t, original);
    t.add_pane_at(NodeId(6), DropZone::Right, key("y"));
    assert_eq!(t.remove_node(NodeId(7)), Ok(()));
    assert_eq!(t, original);
}

#[test]
fn removing_the_part_of_a_self_parented_split() {
    let mut t = self_parented();
    assert_eq!(t.remove_node(NodeId(6)), Ok(()));
    assert_eq!(t.root, NodeId(0));
    assert_eq!(t.nodes.len(), 1);
    assert!(t.nodes.contains_key(&0));
}

#[test]
fn pane_drop_on_delete_with_largest_key_changes_nothing() {
    let mut t = fresh();
    t.nodes.insert(u32::MAX - 1, Node::Pane { parent: None, relation_key: key("far") });
    let before = t.clone();
    let r = t.apply_pane_drop(dragging(Some(0), Some(DropZone::Top), Some("done"), true));
    assert_eq!(r, NewPaneDrag::default());
    assert_eq!(t, before);
    let r = t.apply_pane_drop(dragging(None, None, None, false));
    assert_eq!(r, NewPaneDrag::default());
    assert_eq!(t, before);
}
