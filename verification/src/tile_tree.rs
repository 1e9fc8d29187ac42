//! The tiling layout in which the relations of an object are shown: a binary
//! tree of splits whose leaves (panes) each show one relation.
use vstd::prelude::*;
use std::collections::HashMap;
use crate::relation::RelationKey;
use vstd::std_specs::hash::spec_keys_iter;
use vstd::std_specs::iter::IteratorSpec;

verus! {

broadcast use vstd::std_specs::hash::group_hash_axioms;

/// The identifier of a node of a tile tree.
#[derive(Clone, Copy, PartialEq, Eq, Structural, Hash, Debug)]
pub struct NodeId(pub u32);

/// How a split lays out its two parts.
#[derive(Clone, Copy, PartialEq, Eq, Structural, Debug)]
pub enum SplitDirection {
    /// Side by side.
    Row,
    /// One above the other.
    Column,
}

/// The side of a node on which a new pane is dropped.
#[derive(Clone, Copy, PartialEq, Eq, Structural, Debug)]
pub enum DropZone {
    Top,
    Bottom,
    Left,
    Right,
}

/// The share of a new split's first part, in thousandths.
pub const HALF_RATIO: u32 = 500;

/// A node of a tile tree.
#[derive(Clone, PartialEq, Debug)]
pub enum Node {
    /// Two parts; `ratio_per_mille` is the share of the first, in thousandths.
    Split {
        parent: Option<NodeId>,
        direction: SplitDirection,
        ratio_per_mille: u32,
        first: NodeId,
        second: NodeId,
    },
    /// A leaf showing one relation.
    Pane { parent: Option<NodeId>, relation_key: RelationKey },
}

/// The parent of a node.
pub open spec fn node_parent(n: Node) -> Option<NodeId> {
    match n {
        Node::Split { parent, .. } => parent,
        Node::Pane { parent, .. } => parent,
    }
}

/// A node with its parent replaced.
pub open spec fn with_parent(n: Node, p: Option<NodeId>) -> Node {
    match n {
        Node::Split { parent, direction, ratio_per_mille, first, second } => Node::Split {
            parent: p,
            direction,
            ratio_per_mille,
            first,
            second,
        },
        Node::Pane { parent, relation_key } => Node::Pane { parent: p, relation_key },
    }
}

impl Node {
    /// Replaces the parent of the node.
    pub fn set_parent(&mut self, new_parent: Option<NodeId>)
        ensures
            *final(self) == with_parent(*old(self), new_parent),
    {
        match self {
            Node::Split { parent, .. } => *parent = new_parent,
            Node::Pane { parent, .. } => *parent = new_parent,
        }
    }

    /// The parent of the node.
    pub fn parent(&self) -> (r: Option<NodeId>)
        ensures
            r == node_parent(*self),
    {
        match self {
            Node::Split { parent, .. } => *parent,
            Node::Pane { parent, .. } => *parent,
        }
    }
}

/// Why a node could not be removed.
#[derive(PartialEq, Eq, Structural, Debug)]
pub enum TileError {
    /// There is no node with that identifier.
    NodeNotFound,
    /// The node is the root: it has no parent.
    NodeIsRoot,
    /// The parent of the node is not a split (it was taken out with the node).
    ParentNotSplit(NodeId),
}

/// A tile tree: its nodes by identifier, and the root.
#[derive(Clone, PartialEq, Debug)]
pub struct TileTree {
    pub nodes: HashMap<u32, Node>,
    pub root: NodeId,
}

/// Every key of the map is below `bound`.
pub open spec fn keys_below(m: Map<u32, Node>, bound: int) -> bool {
    forall|k: u32| m.contains_key(k) ==> k < bound
}

/// `r` is one more than the largest key, or 1 when there is no key.
pub open spec fn is_next_id(m: Map<u32, Node>, r: int) -> bool {
    &&& 1 <= r <= u32::MAX as int + 1
    &&& keys_below(m, r)
    &&& (exists|k: u32| m.contains_key(k)) ==> m.contains_key((r - 1) as u32) && r >= 1
    &&& (forall|k: u32| !m.contains_key(k)) ==> r == 1
}

/// A node is a split whose first or second part is `child`.
pub open spec fn has_child(n: Node, child: NodeId) -> bool {
    match n {
        Node::Split { first, second, .. } => first == child || second == child,
        _ => false,
    }
}

/// `d` gives every node a depth greater than its parent's.
pub open spec fn depth_ok(m: Map<u32, Node>, d: spec_fn(u32) -> int) -> bool {
    forall|k: u32| #[trigger]
        m.contains_key(k) && node_parent(m[k]) is Some ==> d(node_parent(m[k]).unwrap().0) < d(k)
}

/// Following parents never comes back to a node.
pub open spec fn acyclic(m: Map<u32, Node>) -> bool {
    exists|d: spec_fn(u32) -> int| #[trigger] depth_ok(m, d)
}

/// The links of the tree are consistent: the root is a node and the only
/// node without a parent; each parent is a split that holds the node as a
/// part; each split has two different parts, both nodes, whose parent it is.
pub open spec fn links_wf(m: Map<u32, Node>, root: NodeId) -> bool {
    &&& m.contains_key(root.0)
    &&& forall|k: u32| #[trigger]
        m.contains_key(k) ==> (node_parent(m[k]) is None <==> k == root.0)
    &&& forall|k: u32| #[trigger]
        m.contains_key(k) && node_parent(m[k]) is Some ==> {
            let p = node_parent(m[k])->0;
            m.contains_key(p.0) && has_child(m[p.0], NodeId(k))
        }
    &&& forall|k: u32| #[trigger]
        m.contains_key(k) && m[k] is Split ==> {
            let f = m[k]->first;
            let s = m[k]->second;
            &&& f != s
            &&& m.contains_key(f.0)
            &&& m.contains_key(s.0)
            &&& node_parent(m[f.0]) == Some(NodeId(k))
            &&& node_parent(m[s.0]) == Some(NodeId(k))
        }
}

/// The tree is consistent: its links are, and parents never form a cycle.
pub open spec fn tree_wf(m: Map<u32, Node>, root: NodeId) -> bool {
    &&& links_wf(m, root)
    &&& acyclic(m)
}

/// One more than the largest key of the map (1 when it has none).
pub open spec fn next_key(m: Map<u32, Node>) -> int {
    choose|r: int| is_next_id(m, r)
}

/// There is at most one next identifier.
pub proof fn lemma_next_id_unique(m: Map<u32, Node>, r1: int, r2: int)
    requires
        is_next_id(m, r1),
        is_next_id(m, r2),
    ensures
        r1 == r2,
{
    if exists|k: u32| m.contains_key(k) {
        assert(m.contains_key((r1 - 1) as u32));
        assert(m.contains_key((r2 - 1) as u32));
    }
}

/// The next identifier is `next_key`.
pub proof fn lemma_next_key(m: Map<u32, Node>, r: int)
    requires
        is_next_id(m, r),
    ensures
        next_key(m) == r,
{
    lemma_next_id_unique(m, r, next_key(m));
}

/// A split node with the part `old_child` replaced by `new_child` (the first
/// part when both are it); other nodes are left as they are.
pub open spec fn replace_child(n: Node, old_child: NodeId, new_child: NodeId) -> Node {
    match n {
        Node::Split { parent, direction, ratio_per_mille, first, second } => {
            if first == old_child {
                Node::Split { parent, direction, ratio_per_mille, first: new_child, second }
            } else if second == old_child {
                Node::Split { parent, direction, ratio_per_mille, first, second: new_child }
            } else {
                n
            }
        },
        _ => n,
    }
}

fn replaced_child(n: Node, old_child: NodeId, new_child: NodeId) -> (r: Node)
    ensures
        r == replace_child(n, old_child, new_child),
{
    match n {
        Node::Split { parent, direction, ratio_per_mille, first, second } => {
            if first == old_child {
                Node::Split { parent, direction, ratio_per_mille, first: new_child, second }
            } else if second == old_child {
                Node::Split { parent, direction, ratio_per_mille, first, second: new_child }
            } else {
                Node::Split { parent, direction, ratio_per_mille, first, second }
            }
        },
        other => other,
    }
}

/// The nodes and root after node `x`, whose parent `p` is a split, was
/// removed: `p` goes too, its other part takes its place under `p`'s parent
/// (or becomes the root).
pub open spec fn removal_result(m: Map<u32, Node>, root: NodeId, x: NodeId, p: NodeId) -> (Map<u32, Node>, NodeId) {
    let pn = m[p.0];
    let gp = node_parent(pn);
    let sib = if x == pn->first { pn->second } else { pn->first };
    let m1 = m.remove(x.0).remove(p.0);
    let m2 = if m1.contains_key(sib.0) {
        m1.insert(sib.0, with_parent(m1[sib.0], gp))
    } else {
        m1
    };
    match gp {
        None => (m2, sib),
        Some(g) => (
            if m2.contains_key(g.0) {
                m2.insert(g.0, replace_child(m2[g.0], p, sib))
            } else {
                m2
            },
            root,
        ),
    }
}

/// The direction of the split that a drop on `zone` makes.
pub open spec fn direction_for(zone: DropZone) -> SplitDirection {
    match zone {
        DropZone::Top | DropZone::Bottom => SplitDirection::Column,
        DropZone::Left | DropZone::Right => SplitDirection::Row,
    }
}

/// A drop on `zone` puts the new pane first (above or to the left).
pub open spec fn new_goes_first(zone: DropZone) -> bool {
    match zone {
        DropZone::Top | DropZone::Left => true,
        _ => false,
    }
}

/// The nodes and root after a new pane `a` showing `key` was dropped on
/// `zone` of node `n`: a new split `a + 1` takes `n`'s place and holds `n`
/// and the new pane.
pub open spec fn added_result(
    m: Map<u32, Node>,
    root: NodeId,
    n: NodeId,
    zone: DropZone,
    key: RelationKey,
    a: u32,
) -> (Map<u32, Node>, NodeId) {
    let b = (a + 1) as u32;
    let m1 = m.insert(a, Node::Pane { parent: None, relation_key: key });
    let f = if new_goes_first(zone) { NodeId(a) } else { n };
    let s = if new_goes_first(zone) { n } else { NodeId(a) };
    let par = if m1.contains_key(n.0) { node_parent(m1[n.0]) } else { None };
    let m2 = m1.insert(
        b,
        Node::Split {
            parent: par,
            direction: direction_for(zone),
            ratio_per_mille: HALF_RATIO,
            first: f,
            second: s,
        },
    );
    let m3 = if m2.contains_key(a) && m2[a] is Pane {
        m2.insert(a, with_parent(m2[a], Some(NodeId(b))))
    } else {
        m2
    };
    let m4 = if m3.contains_key(n.0) {
        m3.insert(n.0, with_parent(m3[n.0], Some(NodeId(b))))
    } else {
        m3
    };
    match par {
        Some(g) => (
            if m4.contains_key(g.0) {
                m4.insert(g.0, replace_child(m4[g.0], n, NodeId(b)))
            } else {
                m4
            },
            root,
        ),
        None => (m4, NodeId(b)),
    }
}

/// The outcome of removing node `x` from the nodes `m` with root `root`:
/// the nodes `m2`, the root `r2` and the result `r`.
pub open spec fn removal_outcome(
    m: Map<u32, Node>,
    root: NodeId,
    m2: Map<u32, Node>,
    r2: NodeId,
    x: NodeId,
    r: Result<(), TileError>,
) -> bool {
            match r {
                Ok(()) => {
                    &&& m.contains_key(x.0)
                    &&& node_parent(m[x.0]) matches Some(p) && {
                        &&& p.0 != x.0
                        &&& m.contains_key(p.0)
                        &&& m[p.0] is Split
                        &&& (m2, r2) == removal_result(
                            m,
                            root,
                            x,
                            p,
                        )
                    }
                },
                Err(TileError::NodeNotFound) => {
                    &&& !m.contains_key(x.0)
                    &&& m2 == m
                    &&& r2 == root
                },
                Err(TileError::NodeIsRoot) => {
                    &&& m.contains_key(x.0)
                    &&& node_parent(m[x.0]) is None
                    &&& m2 == m
                    &&& r2 == root
                },
                Err(TileError::ParentNotSplit(p)) => {
                    &&& m.contains_key(x.0)
                    &&& node_parent(m[x.0]) == Some(p)
                    &&& !(p.0 != x.0 && m.contains_key(p.0) && m[p.0] is Split)
                    &&& m2 == m.remove(x.0).remove(p.0)
                    &&& r2 == root
                },
            }
}

/// The state of dragging a new pane onto the layout.
#[derive(Clone, PartialEq, Debug)]
pub struct NewPaneDrag {
    pub is_dragging: bool,
    pub hover_node: Option<NodeId>,
    pub drop_zone: Option<DropZone>,
    pub dragging_node: Option<NodeId>,
    pub dragging_key: Option<RelationKey>,
    pub hover_delete: bool,
}

/// No drag going on.
pub open spec fn new_pane_drag_default() -> NewPaneDrag {
    NewPaneDrag {
        is_dragging: false,
        hover_node: None,
        drop_zone: None,
        dragging_node: None,
        dragging_key: None,
        hover_delete: false,
    }
}

impl Default for NewPaneDrag {
    fn default() -> (r: Self)
        ensures
            r == new_pane_drag_default(),
    {
        NewPaneDrag {
            is_dragging: false,
            hover_node: None,
            drop_zone: None,
            dragging_node: None,
            dragging_key: None,
            hover_delete: false,
        }
    }
}

impl NewPaneDrag {
    /// The pointer entered zone `zone` of node `node`: it becomes the hovered
    /// drop target.
    pub fn hover_zone(&mut self, node: NodeId, zone: DropZone)
        ensures
            *final(self) == (NewPaneDrag {
                hover_node: Some(node),
                drop_zone: Some(zone),
                ..*old(self)
            }),
    {
        self.hover_node = Some(node);
        self.drop_zone = Some(zone);
    }

    /// The pointer left zone `zone` of node `node`: the drop target is
    /// cleared when it is that zone, and kept otherwise.
    pub fn leave_zone(&mut self, node: NodeId, zone: DropZone)
        ensures
            *final(self) == if old(self).hover_node == Some(node) && old(self).drop_zone == Some(zone) {
                NewPaneDrag { hover_node: None, drop_zone: None, ..*old(self) }
            } else {
                *old(self)
            },
    {
        if self.zone_active(node, zone) {
            self.hover_node = None;
            self.drop_zone = None;
        }
    }

    /// Whether zone `zone` of node `node` is the hovered drop target.
    pub fn zone_active(&self, node: NodeId, zone: DropZone) -> (r: bool)
        ensures
            r == (self.hover_node == Some(node) && self.drop_zone == Some(zone)),
    {
        let on_node = match self.hover_node {
            Some(n) => n == node,
            None => false,
        };
        let on_zone = match self.drop_zone {
            Some(z) => z == zone,
            None => false,
        };
        on_node && on_zone
    }
}

/// `k` is the relation key that a dragged pane carries: its own key, or an
/// empty key when it carries none.
pub open spec fn key_fits(dragging_key: Option<RelationKey>, k: RelationKey) -> bool {
    match dragging_key {
        Some(dk) => k == dk,
        None => k.0@ == Seq::<char>::empty(),
    }
}

impl TileTree {
    /// The tree is consistent.
    pub open spec fn wf(&self) -> bool {
        tree_wf(self.nodes@, self.root)
    }

    /// One more than the largest node identifier (1 for an empty tree).
    fn next_id(&self) -> (r: NodeId)
        requires
            keys_below(self.nodes@, u32::MAX as int),
        ensures
            is_next_id(self.nodes@, r.0 as int),
    {
        let mut max_val: u32 = 0;
        let mut any = false;
        let ghost m = self.nodes@;
        let ghost s: Seq<u32> = spec_keys_iter(&self.nodes).remaining().unref();
        let ghost mut count: int = 0;
        for k in it: self.nodes.keys()
            invariant
                keys_below(m, u32::MAX as int),
                m == self.nodes@,
                s == it.seq().unref(),
                s.to_set() == m.dom(),
                count == it.index(),
                forall|j: int| 0 <= j < count ==> s[j] <= max_val,
                any ==> exists|j: int| 0 <= j < count && s[j] == max_val,
                !any ==> max_val == 0 && count == 0,
        {
            if !any || *k > max_val {
                max_val = *k;
            }
            any = true;
            proof {
                count = count + 1;
            }
        }
        proof {
            assert(count == s.len());
            assert forall|k: u32| m.contains_key(k) implies k < max_val + 1 by {
                assert(s.to_set().contains(k));
                let j = choose|j: int| 0 <= j < s.len() && s[j] == k;
            }
            if exists|k: u32| m.contains_key(k) {
                let k = choose|k: u32| m.contains_key(k);
                assert(s.to_set().contains(k));
                let j = choose|j: int| 0 <= j < count && s[j] == max_val;
                assert(s.to_set().contains(max_val));
            } else {
                if any {
                    let j = choose|j: int| 0 <= j < count && s[j] == max_val;
                    assert(s.to_set().contains(s[j]));
                }
            }
        }
        NodeId(max_val + 1)
    }

    /// The next two free identifiers: one and two more than the largest.
    fn generate_2_ids(&self) -> (r: (NodeId, NodeId))
        requires
            keys_below(self.nodes@, u32::MAX - 1),
        ensures
            is_next_id(self.nodes@, (r.0).0 as int),
            (r.1).0 == (r.0).0 + 1,
    {
        let a = self.next_id();
        (a, NodeId(a.0 + 1))
    }

    /// Resets the layout to a single pane showing the name.
    pub fn clean(&mut self)
        ensures
            final(self).root == NodeId(0),
            final(self).nodes@.dom() == set![0u32],
            final(self).nodes@[0] matches Node::Pane { parent: None, relation_key }
                && relation_key.0@ == "name"@,
            final(self).wf(),
    {
        self.root = NodeId(0);
        self.nodes.clear();
        self.nodes.insert(
            0,
            Node::Pane { parent: None, relation_key: RelationKey(crate::relation::NAME_RELATION_KEY.to_owned()) },
        );
        assert(self.nodes@.dom() =~= set![0u32]);
        assert(depth_ok(self.nodes@, |k: u32| 0int));
    }

    /// Removes node `node_id` and its parent split; the other part of the
    /// split takes the split's place.
    pub fn remove_node(&mut self, node_id: NodeId) -> (r: Result<(), TileError>)
        ensures
            removal_outcome(old(self).nodes@, old(self).root, final(self).nodes@, final(self).root, node_id, r),
    {
        let parent_id = match self.nodes.get(&node_id.0) {
            None => return Err(TileError::NodeNotFound),
            Some(n) => match n.parent() {
                None => return Err(TileError::NodeIsRoot),
                Some(p) => p,
            },
        };
        self.nodes.remove(&node_id.0);
        let (first, second, grand_parent) = match self.nodes.remove(&parent_id.0) {
            Some(Node::Split { first, second, parent, .. }) => (first, second, parent),
            _ => return Err(TileError::ParentNotSplit(parent_id)),
        };
        let sibling_id = if node_id == first {
            second
        } else {
            first
        };
        match self.nodes.remove(&sibling_id.0) {
            Some(mut sibling) => {
                sibling.set_parent(grand_parent);
                self.nodes.insert(sibling_id.0, sibling);
            },
            None => {},
        }
        match grand_parent {
            None => self.root = sibling_id,
            Some(gp_id) => match self.nodes.remove(&gp_id.0) {
                Some(gp) => {
                    let gp2 = replaced_child(gp, parent_id, sibling_id);
                    self.nodes.insert(gp_id.0, gp2);
                },
                None => {},
            },
        }
        let ghost res = removal_result(old(self).nodes@, old(self).root, node_id, parent_id);
        assert(self.nodes@ =~= res.0);
        Ok(())
    }

    /// Drops a new pane showing `key` on `zone` of node `node_id`: a new split
    /// takes the node's place and holds the node and the new pane, in the
    /// order and direction that the zone gives.
    pub fn add_pane_at(&mut self, node_id: NodeId, zone: DropZone, key: RelationKey)
        requires
            keys_below(old(self).nodes@, u32::MAX - 1),
        ensures
            is_next_id(old(self).nodes@, next_key(old(self).nodes@)),
            (final(self).nodes@, final(self).root) == added_result(
                old(self).nodes@,
                old(self).root,
                node_id,
                zone,
                key,
                next_key(old(self).nodes@) as u32,
            ),
    {
        let ghost m = self.nodes@;
        let direction = match zone {
            DropZone::Top | DropZone::Bottom => SplitDirection::Column,
            DropZone::Left | DropZone::Right => SplitDirection::Row,
        };
        let first_is_new = match zone {
            DropZone::Top | DropZone::Left => true,
            _ => false,
        };
        let new_pane_id = self.next_id();
        proof {
            lemma_next_key(m, new_pane_id.0 as int);
        }
        self.nodes.insert(new_pane_id.0, Node::Pane { parent: None, relation_key: key });
        let ghost m1 = self.nodes@;
        assert(is_next_id(m1, new_pane_id.0 + 1)) by {
            assert(m1.contains_key(new_pane_id.0));
        }
        let new_split_id = self.next_id();
        proof {
            lemma_next_id_unique(m1, new_split_id.0 as int, new_pane_id.0 + 1);
        }
        let (first, second) = if first_is_new {
            (new_pane_id, node_id)
        } else {
            (node_id, new_pane_id)
        };
        let parent = match self.nodes.get(&node_id.0) {
            Some(n) => n.parent(),
            None => None,
        };
        self.nodes.insert(
            new_split_id.0,
            Node::Split { parent, direction, ratio_per_mille: HALF_RATIO, first, second },
        );
        match self.nodes.remove(&new_pane_id.0) {
            Some(n) => {
                let n2 = match n {
                    Node::Pane { parent: _, relation_key } => Node::Pane {
                        parent: Some(new_split_id),
                        relation_key,
                    },
                    other => other,
                };
                self.nodes.insert(new_pane_id.0, n2);
            },
            None => {},
        }
        match self.nodes.remove(&node_id.0) {
            Some(mut n) => {
                n.set_parent(Some(new_split_id));
                self.nodes.insert(node_id.0, n);
            },
            None => {},
        }
        match parent {
            Some(gp_id) => match self.nodes.remove(&gp_id.0) {
                Some(gp) => {
                    let gp2 = replaced_child(gp, node_id, new_split_id);
                    self.nodes.insert(gp_id.0, gp2);
                },
                None => {},
            },
            None => {
                self.root = new_split_id;
            },
        }
        let ghost res = added_result(m, old(self).root, node_id, zone, key, new_pane_id.0);
        assert(self.nodes@ =~= res.0);
    }

    /// Removes a pane, unless it is the root (which stays).
    pub fn remove_unless_root(&mut self, id: NodeId) -> (r: Option<Result<(), TileError>>)
        ensures
            id == old(self).root ==> r is None && final(self).nodes@ == old(self).nodes@
                && final(self).root == old(self).root,
            id != old(self).root ==> (r matches Some(res) && removal_outcome(
                old(self).nodes@,
                old(self).root,
                final(self).nodes@,
                final(self).root,
                id,
                res,
            )),
    {
        if self.root != id {
            Some(self.remove_node(id))
        } else {
            None
        }
    }

    /// Makes pane `id` show `key` (the empty key when there is none); a node
    /// that is not a pane is left alone.
    pub fn set_pane_key(&mut self, id: NodeId, key: Option<RelationKey>)
        ensures
            final(self).root == old(self).root,
            (old(self).nodes@.contains_key(id.0) && old(self).nodes@[id.0] is Pane) ==> ({
                let k = match key {
                    Some(k) => k.0@,
                    None => Seq::<char>::empty(),
                };
                &&& final(self).nodes@.dom() == old(self).nodes@.dom()
                &&& final(self).nodes@ == old(self).nodes@.insert(id.0, final(self).nodes@[id.0])
                &&& final(self).nodes@[id.0] matches Node::Pane { parent, relation_key }
                    && parent == node_parent(old(self).nodes@[id.0]) && relation_key.0@ == k
            }),
            !(old(self).nodes@.contains_key(id.0) && old(self).nodes@[id.0] is Pane) ==> final(self).nodes@ == old(self).nodes@,
    {
        match self.nodes.remove(&id.0) {
            Some(n) => {
                let n2 = match n {
                    Node::Pane { parent, relation_key: _ } => Node::Pane {
                        parent,
                        relation_key: match key {
                            Some(k) => k,
                            None => RelationKey::empty(),
                        },
                    },
                    other => other,
                };
                self.nodes.insert(id.0, n2);
                assert(self.nodes@.dom() =~= old(self).nodes@.dom());
                proof {
                    if !(old(self).nodes@[id.0] is Pane) {
                        assert(self.nodes@ =~= old(self).nodes@);
                    }
                }
            },
            None => {
                assert(self.nodes@ =~= old(self).nodes@);
            },
        }
    }

    /// Sets the share of the first part of split `id`, in thousandths; a
    /// node that is not a split is left alone.
    pub fn set_split_ratio(&mut self, id: NodeId, ratio_per_mille: u32)
        ensures
            final(self).root == old(self).root,
            (old(self).nodes@.contains_key(id.0) && old(self).nodes@[id.0] is Split) ==> ({
                let n = old(self).nodes@[id.0];
                final(self).nodes@ == old(self).nodes@.insert(
                    id.0,
                    Node::Split {
                        parent: n->Split_parent,
                        direction: n->direction,
                        ratio_per_mille,
                        first: n->first,
                        second: n->second,
                    },
                )
            }),
            !(old(self).nodes@.contains_key(id.0) && old(self).nodes@[id.0] is Split) ==> final(self).nodes@ == old(self).nodes@,
    {
        match self.nodes.remove(&id.0) {
            Some(n) => {
                let n2 = match n {
                    Node::Split { parent, direction, ratio_per_mille: _, first, second } => {
                        Node::Split { parent, direction, ratio_per_mille, first, second }
                    },
                    other => other,
                };
                self.nodes.insert(id.0, n2);
                proof {
                    if !(old(self).nodes@[id.0] is Split) {
                        assert(self.nodes@ =~= old(self).nodes@);
                    }
                }
            },
            None => {
                assert(self.nodes@ =~= old(self).nodes@);
            },
        }
    }

    /// Ends the drag of a new pane (the pointer was released): unless it was
    /// dropped on the delete button, the pane is added on the hovered zone of
    /// the hovered node, or, with no zone hovered, to the right of the root
    /// when it carries a relation. The drag state after the release is given
    /// back: cleared when a drag was going on, unchanged otherwise.
    pub fn apply_pane_drop(&mut self, drag: NewPaneDrag) -> (r: NewPaneDrag)
        requires
            drag.is_dragging && !drag.hover_delete && ((drag.hover_node is Some
                && drag.drop_zone is Some) || drag.dragging_key is Some) ==> keys_below(
                old(self).nodes@,
                u32::MAX - 1,
            ),
        ensures
            !drag.is_dragging ==> r == drag && final(self).nodes@ == old(self).nodes@ && final(self).root == old(self).root,
            drag.is_dragging ==> r == new_pane_drag_default(),
            drag.is_dragging && !drag.hover_delete && drag.hover_node is Some
                && drag.drop_zone is Some ==> exists|k: RelationKey| #[trigger]
                key_fits(drag.dragging_key, k) && (final(self).nodes@, final(self).root)
                    == added_result(
                    old(self).nodes@,
                    old(self).root,
                    drag.hover_node.unwrap(),
                    drag.drop_zone.unwrap(),
                    k,
                    next_key(old(self).nodes@) as u32,
                ),
            drag.is_dragging && !drag.hover_delete && !(drag.hover_node is Some
                && drag.drop_zone is Some) && drag.dragging_key is Some ==> (
            final(self).nodes@,
            final(self).root,
            ) == added_result(
                old(self).nodes@,
                old(self).root,
                old(self).root,
                DropZone::Right,
                drag.dragging_key.unwrap(),
                next_key(old(self).nodes@) as u32,
            ),
            drag.is_dragging && (drag.hover_delete || (!(drag.hover_node is Some
                && drag.drop_zone is Some) && drag.dragging_key is None)) ==> final(self).nodes@
                == old(self).nodes@ && final(self).root == old(self).root,
    {
        if !drag.is_dragging {
            return drag;
        }
        let ghost dk = drag.dragging_key;
        let NewPaneDrag {
            is_dragging: _,
            hover_node,
            drop_zone,
            dragging_node: _,
            dragging_key,
            hover_delete,
        } = drag;
        if !hover_delete {
            match (hover_node, drop_zone) {
                (Some(node_id), Some(zone)) => {
                    let key = match dragging_key {
                        Some(k) => k,
                        None => RelationKey::empty(),
                    };
                    let ghost kk = key;
                    self.add_pane_at(node_id, zone, key);
                    assert(key_fits(dk, kk));
                },
                _ => match dragging_key {
                    Some(key) => {
                        let root = self.root;
                        self.add_pane_at(root, DropZone::Right, key);
                    },
                    None => {},
                },
            }
        }
        NewPaneDrag::default()
    }
}

} // verus!
