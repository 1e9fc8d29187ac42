//! What the layout operations keep and undo.
use vstd::prelude::*;
use crate::relation::RelationKey;
use crate::tile_tree::{acyclic, added_result, depth_ok, links_wf, direction_for, has_child, is_next_id, new_goes_first, removal_result, node_parent, replace_child, tree_wf, with_parent, DropZone, Node, NodeId, SplitDirection, HALF_RATIO};

verus! {

/// The nodes `m2` and root `r2` are those of `m` and `root` after a pane
/// `a` was added on node `n` under a new split `a + 1`. When `n` is its own
/// parent, the new split also takes its own place among `n`'s parts.
pub open spec fn added_shape(
    m: Map<u32, Node>,
    root: NodeId,
    m2: Map<u32, Node>,
    r2: NodeId,
    n: NodeId,
    zone: DropZone,
    key: RelationKey,
    a: u32,
) -> bool {
    let b = (a + 1) as u32;
    let par = node_parent(m[n.0]);
    &&& a + 1 <= u32::MAX
    &&& m.contains_key(n.0)
    &&& !m.contains_key(a) && !m.contains_key(b)
    &&& m2.dom() == m.dom().insert(a).insert(b)
    &&& m2[a] == Node::Pane { parent: Some(NodeId(b)), relation_key: key }
    &&& m2[b] == Node::Split {
        parent: par,
        direction: direction_for(zone),
        ratio_per_mille: HALF_RATIO,
        first: if new_goes_first(zone) { NodeId(a) } else { n },
        second: if new_goes_first(zone) { n } else { NodeId(a) },
    }
    &&& par != Some(n) ==> m2[n.0] == with_parent(m[n.0], Some(NodeId(b)))
    &&& par == Some(n) ==> m2[n.0] == replace_child(
        with_parent(m[n.0], Some(NodeId(b))),
        n,
        NodeId(b),
    )
    &&& par matches Some(g) ==> m.contains_key(g.0) && (g != n ==> m2[g.0] == replace_child(
        m[g.0],
        n,
        NodeId(b),
    ))
    &&& forall|k: u32|
        #![trigger m2[k]]
        m.contains_key(k) && k != n.0 && (par is None || k != par.unwrap().0) ==> m2[k] == m[k]
    &&& r2 == if par is None { NodeId(b) } else { root }
}

/// The shape of the nodes after a pane was added to a tree whose links are
/// consistent.
proof fn lemma_added_shape(
    m: Map<u32, Node>,
    root: NodeId,
    n: NodeId,
    zone: DropZone,
    key: RelationKey,
    a: u32,
)
    requires
        links_wf(m, root),
        m.contains_key(n.0),
        is_next_id(m, a as int),
        a + 1 <= u32::MAX,
    ensures
        added_shape(
            m,
            root,
            added_result(m, root, n, zone, key, a).0,
            added_result(m, root, n, zone, key, a).1,
            n,
            zone,
            key,
            a,
        ),
{
    let b = (a + 1) as u32;
    let par = node_parent(m[n.0]);
    if par is Some {
        assert(m.contains_key(par.unwrap().0));
    }
    let (m2, r2) = added_result(m, root, n, zone, key, a);
    assert(m2.dom() =~= m.dom().insert(a).insert(b));
}

proof fn lemma_added_depth(
    m: Map<u32, Node>,
    root: NodeId,
    m2: Map<u32, Node>,
    r2: NodeId,
    n: NodeId,
    zone: DropZone,
    key: RelationKey,
    a: u32,
)
    requires
        tree_wf(m, root),
        added_shape(m, root, m2, r2, n, zone, key, a),
    ensures
        acyclic(m2),
{
    let b = (a + 1) as u32;
    let par = node_parent(m[n.0]);
    let d = choose|d: spec_fn(u32) -> int| depth_ok(m, d);
    let d2 = |k: u32|
        if k == b {
            2 * d(n.0)
        } else if k == a {
            2 * d(n.0) + 2
        } else {
            2 * d(k) + 1
        };
    if par is Some {
        assert(d(par.unwrap().0) < d(n.0));
    }
    assert forall|k: u32| #[trigger]
        m2.contains_key(k) && node_parent(m2[k]) is Some implies d2(
        node_parent(m2[k]).unwrap().0,
    ) < d2(k) by {
        if k != a && k != b && k != n.0 {
            assert(m.contains_key(k));
            assert(d(node_parent(m[k]).unwrap().0) < d(k));
        }
    }
    assert(depth_ok(m2, d2));
}

/// What replacing a part of a node keeps and what it changes.
proof fn lemma_replace_child_facts(x: Node, u: NodeId, v: NodeId)
    ensures
        node_parent(replace_child(x, u, v)) == node_parent(x),
        replace_child(x, u, v) is Split <==> x is Split,
        x is Split && x->first == u ==> replace_child(x, u, v)->first == v && replace_child(
            x,
            u,
            v,
        )->second == x->second,
        x is Split && x->first != u && x->second == u ==> replace_child(x, u, v)->first
            == x->first && replace_child(x, u, v)->second == v,
        !has_child(x, u) ==> replace_child(x, u, v) == x,
        has_child(x, u) ==> has_child(replace_child(x, u, v), v),
        forall|c: NodeId| c != u && has_child(x, c) ==> #[trigger] has_child(replace_child(x, u, v), c),
{
}

/// What changing the parent of a node keeps.
proof fn lemma_with_parent_facts(x: Node, p: Option<NodeId>)
    ensures
        node_parent(with_parent(x, p)) == p,
        with_parent(x, p) is Split <==> x is Split,
        x is Split ==> with_parent(x, p)->first == x->first && with_parent(x, p)->second
            == x->second,
        forall|c: NodeId| #[trigger] has_child(with_parent(x, p), c) == has_child(x, c),
{
}

/// Adding a pane to a tree whose links are consistent keeps them
/// consistent, whether or not parents form cycles.
#[verifier::rlimit(40)]
proof fn lemma_added_links(
    m: Map<u32, Node>,
    root: NodeId,
    m2: Map<u32, Node>,
    r2: NodeId,
    n: NodeId,
    zone: DropZone,
    key: RelationKey,
    a: u32,
)
    requires
        links_wf(m, root),
        added_shape(m, root, m2, r2, n, zone, key, a),
    ensures
        links_wf(m2, r2),
{
    let b = (a + 1) as u32;
    let nb = NodeId(b);
    let par = node_parent(m[n.0]);
    let mn = m[n.0];
    lemma_with_parent_facts(mn, Some(nb));
    lemma_replace_child_facts(with_parent(mn, Some(nb)), n, nb);
    if par is Some {
        let g = par.unwrap();
        assert(m.contains_key(g.0) && has_child(m[g.0], n));
        lemma_replace_child_facts(m[g.0], n, nb);
        assert(n.0 != root.0);
    } else {
        assert(n.0 == root.0);
    }
    assert(m2.contains_key(r2.0));
    assert forall|k: u32| #[trigger] m2.contains_key(k) implies (node_parent(m2[k]) is None
        <==> k == r2.0) by {
        if k != a && k != b && k != n.0 {
            assert(m.contains_key(k));
            if par is Some && k == par.unwrap().0 {
                lemma_replace_child_facts(m[k], n, nb);
            }
        }
    }
    assert forall|k: u32| #[trigger]
        m2.contains_key(k) && node_parent(m2[k]) is Some implies {
        let q = node_parent(m2[k])->0;
        m2.contains_key(q.0) && has_child(m2[q.0], NodeId(k))
    } by {
        if k == a || k == b || k == n.0 {
        } else {
            assert(m.contains_key(k));
            if par is Some && k == par.unwrap().0 {
                lemma_replace_child_facts(m[k], n, nb);
            }
            let q = node_parent(m[k])->0;
            assert(node_parent(m2[k]) == Some(q));
            assert(m.contains_key(q.0) && has_child(m[q.0], NodeId(k)));
            assert(NodeId(k) != n);
            if q == n {
            } else if par is Some && q == par.unwrap() {
            } else {
                assert(m2[q.0] == m[q.0]);
            }
        }
    }
    assert forall|k: u32| #[trigger] m2.contains_key(k) && m2[k] is Split implies {
        let f = m2[k]->first;
        let s = m2[k]->second;
        &&& f != s
        &&& m2.contains_key(f.0)
        &&& m2.contains_key(s.0)
        &&& node_parent(m2[f.0]) == Some(NodeId(k))
        &&& node_parent(m2[s.0]) == Some(NodeId(k))
    } by {
        if k == b {
        } else {
            assert(k != a);
            assert(m.contains_key(k));
            let mk = m[k];
            lemma_replace_child_facts(mk, n, nb);
            assert(mk is Split);
            let f0 = mk->first;
            let s0 = mk->second;
            assert(f0 != s0);
            assert(m.contains_key(f0.0) && m.contains_key(s0.0));
            assert(node_parent(m[f0.0]) == Some(NodeId(k)));
            assert(node_parent(m[s0.0]) == Some(NodeId(k)));
            if f0 != n && f0.0 != k && !(par is Some && f0 == par.unwrap()) {
                assert(m2[f0.0] == m[f0.0]);
            }
            if s0 != n && s0.0 != k && !(par is Some && s0 == par.unwrap()) {
                assert(m2[s0.0] == m[s0.0]);
            }
            if par is Some && f0 == par.unwrap() && f0 != n {
                lemma_replace_child_facts(m[f0.0], n, nb);
            }
            if par is Some && s0 == par.unwrap() && s0 != n {
                lemma_replace_child_facts(m[s0.0], n, nb);
            }
        }
    }
}

/// Law: dropping a new pane on a node of a tree keeps its links consistent,
/// and keeps a tree without cycles without cycles.
pub proof fn law_add_pane_keeps_wf(
    m: Map<u32, Node>,
    root: NodeId,
    n: NodeId,
    zone: DropZone,
    key: RelationKey,
    a: u32,
)
    requires
        links_wf(m, root),
        m.contains_key(n.0),
        is_next_id(m, a as int),
        a + 1 <= u32::MAX,
    ensures
        links_wf(added_result(m, root, n, zone, key, a).0, added_result(m, root, n, zone, key, a).1),
        acyclic(m) ==> tree_wf(
            added_result(m, root, n, zone, key, a).0,
            added_result(m, root, n, zone, key, a).1,
        ),
{
    lemma_added_shape(m, root, n, zone, key, a);
    let (m2, r2) = added_result(m, root, n, zone, key, a);
    lemma_added_links(m, root, m2, r2, n, zone, key, a);
    if acyclic(m) {
        lemma_added_depth(m, root, m2, r2, n, zone, key, a);
    }
}

/// The nodes `m2` and root `r2` are those of `m` and `root` after the pane
/// `x`, with parent `p` and sibling `sib`, was removed.
pub open spec fn removed_shape(
    m: Map<u32, Node>,
    root: NodeId,
    m2: Map<u32, Node>,
    r2: NodeId,
    x: NodeId,
    p: NodeId,
    sib: NodeId,
) -> bool {
    let gp = node_parent(m[p.0]);
    &&& m.contains_key(x.0) && m[x.0] is Pane && node_parent(m[x.0]) == Some(p)
    &&& m.contains_key(p.0) && m[p.0] is Split && p.0 != x.0
    &&& has_child(m[p.0], x) && has_child(m[p.0], sib) && sib != x
    &&& m.contains_key(sib.0) && sib.0 != p.0
    &&& m2.dom() == m.dom().remove(x.0).remove(p.0)
    &&& m2[sib.0] == with_parent(m[sib.0], gp)
    &&& gp matches Some(g) ==> g.0 != sib.0 && g.0 != x.0 && g.0 != p.0 && m.contains_key(g.0)
        && m2[g.0] == replace_child(m[g.0], p, sib)
    &&& forall|k: u32|
        #![trigger m2[k]]
        m2.contains_key(k) && k != sib.0 && (gp is None || k != gp.unwrap().0) ==> m2[k] == m[k]
    &&& r2 == if gp is None { sib } else { root }
}

#[verifier::rlimit(40)]
proof fn lemma_removed_shape(m: Map<u32, Node>, root: NodeId, x: NodeId)
    requires
        tree_wf(m, root),
        m.contains_key(x.0),
        m[x.0] is Pane,
        node_parent(m[x.0]) is Some,
    ensures
        ({
            let p = node_parent(m[x.0]).unwrap();
            let pn = m[p.0];
            let sib = if x == pn->first { pn->second } else { pn->first };
            &&& p.0 != x.0 && m.contains_key(p.0) && m[p.0] is Split
            &&& removed_shape(
                m,
                root,
                removal_result(m, root, x, p).0,
                removal_result(m, root, x, p).1,
                x,
                p,
                sib,
            )
        }),
{
    let d = choose|d: spec_fn(u32) -> int| depth_ok(m, d);
    let p = node_parent(m[x.0]).unwrap();
    assert(d(p.0) < d(x.0));
    assert(m.contains_key(p.0) && has_child(m[p.0], x));
    let pn = m[p.0];
    let sib = if x == pn->first { pn->second } else { pn->first };
    assert(node_parent(m[sib.0]) == Some(p));
    assert(d(p.0) < d(sib.0));
    let gp = node_parent(pn);
    if gp is Some {
        let g = gp.unwrap();
        assert(d(g.0) < d(p.0));
        assert(m.contains_key(g.0));
        assert(g.0 != x.0) by {
            if g.0 == x.0 {
                assert(has_child(m[g.0], p));
            }
        }
    }
    let m1 = m.remove(x.0).remove(p.0);
    assert(m1.contains_key(sib.0));
    let ma = m1.insert(sib.0, with_parent(m1[sib.0], gp));
    assert(ma.dom() =~= m.dom().remove(x.0).remove(p.0));
    let (m2, r2) = removal_result(m, root, x, p);
    if gp is Some {
        let g = gp.unwrap();
        assert(ma.contains_key(g.0));
        assert(m2 == ma.insert(g.0, replace_child(ma[g.0], p, sib)));
        assert(m2.dom() =~= m.dom().remove(x.0).remove(p.0));
    } else {
        assert(m2 == ma);
    }
}

proof fn lemma_removed_wf(
    m: Map<u32, Node>,
    root: NodeId,
    m2: Map<u32, Node>,
    r2: NodeId,
    x: NodeId,
    p: NodeId,
    sib: NodeId,
)
    requires
        tree_wf(m, root),
        removed_shape(m, root, m2, r2, x, p, sib),
    ensures
        tree_wf(m2, r2),
{
    let d = choose|d: spec_fn(u32) -> int| depth_ok(m, d);
    let gp = node_parent(m[p.0]);
    assert(node_parent(m[sib.0]) == Some(p));
    assert(d(p.0) < d(sib.0));
    if gp is Some {
        assert(d(gp.unwrap().0) < d(p.0));
        assert(has_child(m[gp.unwrap().0], p));
    }
    assert(depth_ok(m2, d)) by {
        assert forall|k: u32| #[trigger]
            m2.contains_key(k) && node_parent(m2[k]) is Some implies d(
            node_parent(m2[k]).unwrap().0,
        ) < d(k) by {
            assert(m.contains_key(k));
            if k != sib.0 {
                assert(node_parent(m2[k]) == node_parent(m[k]));
            }
        }
    }
    assert(m2.contains_key(r2.0)) by {
        if gp is Some {
            assert(node_parent(m[root.0]) is None);
        }
    }
    assert forall|k: u32| #[trigger] m2.contains_key(k) implies (node_parent(m2[k]) is None
        <==> k == r2.0) by {
        assert(m.contains_key(k));
        if k != sib.0 {
            assert(node_parent(m2[k]) == node_parent(m[k]));
        }
    }
    assert forall|k: u32| #[trigger]
        m2.contains_key(k) && node_parent(m2[k]) is Some implies {
        let q = node_parent(m2[k]).unwrap();
        m2.contains_key(q.0) && has_child(m2[q.0], NodeId(k))
    } by {
        assert(m.contains_key(k));
        if k == sib.0 {
        } else {
            let q = node_parent(m[k]).unwrap();
            assert(node_parent(m2[k]) == Some(q));
            assert(m.contains_key(q.0) && has_child(m[q.0], NodeId(k)));
            assert(q.0 != x.0);
            assert(q.0 != p.0) by {
                if q.0 == p.0 {
                    assert(NodeId(k) == x || NodeId(k) == sib);
                }
            }
            if q == sib {
            } else if gp is Some && q == gp.unwrap() {
            } else {
                assert(m2[q.0] == m[q.0]);
            }
        }
    }
    assert forall|k: u32| #[trigger] m2.contains_key(k) && m2[k] is Split implies {
        let f = m2[k]->first;
        let s = m2[k]->second;
        &&& f != s
        &&& m2.contains_key(f.0)
        &&& m2.contains_key(s.0)
        &&& node_parent(m2[f.0]) == Some(NodeId(k))
        &&& node_parent(m2[s.0]) == Some(NodeId(k))
    } by {
        assert(m.contains_key(k));
        assert(m[k] is Split);
        let f0 = m[k]->first;
        let s0 = m[k]->second;
        assert(node_parent(m[f0.0]) == Some(NodeId(k)));
        assert(node_parent(m[s0.0]) == Some(NodeId(k)));
        assert(d(k) < d(f0.0));
        assert(d(k) < d(s0.0));
        if gp is Some && k == gp.unwrap().0 {
            if f0 == p {
                assert(m2[s0.0] == m[s0.0]);
            } else {
                assert(s0 == p);
                assert(m2[f0.0] == m[f0.0]);
            }
        } else {
            assert(f0 != x && s0 != x);
            assert(f0 != p && s0 != p);
            assert(f0 != sib && s0 != sib);
            if gp is Some && f0 == gp.unwrap() {
                assert(node_parent(m2[f0.0]) == node_parent(m[f0.0]));
            } else {
                assert(m2[f0.0] == m[f0.0]);
            }
            if gp is Some && s0 == gp.unwrap() {
                assert(node_parent(m2[s0.0]) == node_parent(m[s0.0]));
            } else {
                assert(m2[s0.0] == m[s0.0]);
            }
        }
    }
}

/// Removing a pane that is not the root from a tree whose links are
/// consistent keeps them consistent, whether or not parents form cycles.
#[verifier::rlimit(60)]
proof fn lemma_removed_links(m: Map<u32, Node>, root: NodeId, x: NodeId)
    requires
        links_wf(m, root),
        m.contains_key(x.0),
        m[x.0] is Pane,
        x.0 != root.0,
    ensures
        node_parent(m[x.0]) is Some,
        ({
            let p = node_parent(m[x.0]).unwrap();
            &&& p.0 != x.0
            &&& m.contains_key(p.0)
            &&& m[p.0] is Split
            &&& links_wf(removal_result(m, root, x, p).0, removal_result(m, root, x, p).1)
        }),
{
    let p = node_parent(m[x.0]).unwrap();
    assert(m.contains_key(p.0) && has_child(m[p.0], x));
    let pn = m[p.0];
    let f0 = pn->first;
    let s0 = pn->second;
    assert(node_parent(m[f0.0]) == Some(p));
    assert(node_parent(m[s0.0]) == Some(p));
    let sib = if x == f0 { s0 } else { f0 };
    assert(sib != x);
    assert(m.contains_key(sib.0));
    assert(node_parent(m[sib.0]) == Some(p));
    let gp = node_parent(pn);
    let (m2, r2) = removal_result(m, root, x, p);
    let m1 = m.remove(x.0).remove(p.0);
    assert(root.0 != x.0);
    if gp is Some {
        let g = gp.unwrap();
        assert(m.contains_key(g.0) && has_child(m[g.0], p));
        assert(g.0 != x.0);
        lemma_replace_child_facts(m[g.0], p, sib);
    }
    if sib == p {
        // `p` is its own part and parent: only `x` and `p` go.
        assert(gp == Some(p));
        assert(!m1.contains_key(sib.0));
        assert(m2 == m1);
        assert(r2 == root);
        assert forall|k: u32| #[trigger] m2.contains_key(k) implies (node_parent(m2[k]) is None
            <==> k == r2.0) by {
            assert(m.contains_key(k));
        }
        assert forall|k: u32| #[trigger]
            m2.contains_key(k) && node_parent(m2[k]) is Some implies {
            let q = node_parent(m2[k])->0;
            m2.contains_key(q.0) && has_child(m2[q.0], NodeId(k))
        } by {
            assert(m.contains_key(k));
            let q = node_parent(m[k])->0;
            assert(m.contains_key(q.0) && has_child(m[q.0], NodeId(k)));
            assert(q.0 != x.0);
        }
        assert forall|k: u32| #[trigger] m2.contains_key(k) && m2[k] is Split implies {
            let f = m2[k]->first;
            let s = m2[k]->second;
            &&& f != s
            &&& m2.contains_key(f.0)
            &&& m2.contains_key(s.0)
            &&& node_parent(m2[f.0]) == Some(NodeId(k))
            &&& node_parent(m2[s.0]) == Some(NodeId(k))
        } by {
            assert(m.contains_key(k));
            let f1 = m[k]->first;
            let s1 = m[k]->second;
            assert(node_parent(m[f1.0]) == Some(NodeId(k)));
            assert(node_parent(m[s1.0]) == Some(NodeId(k)));
        }
    } else {
        assert(m1.contains_key(sib.0));
        let ms = with_parent(m[sib.0], gp);
        lemma_with_parent_facts(m[sib.0], gp);
        let ma = m1.insert(sib.0, ms);
        if gp is Some {
            let g = gp.unwrap();
            assert(g != p) by {
                if g == p {
                    assert(has_child(pn, p));
                }
            }
            assert(ma.contains_key(g.0));
            assert(m2 == ma.insert(g.0, replace_child(ma[g.0], p, sib)));
            if g == sib {
                lemma_replace_child_facts(ms, p, sib);
                assert(has_child(m[sib.0], p));
            }
        } else {
            assert(m2 == ma);
            assert(r2 == sib);
        }
        assert(m2.dom() =~= m1.dom());
        assert forall|k: u32| #[trigger] m2.contains_key(k) implies (node_parent(m2[k]) is None
            <==> k == r2.0) by {
            assert(m.contains_key(k));
            if gp is Some && k == gp.unwrap().0 {
                lemma_replace_child_facts(ma[k], p, sib);
            }
        }
        assert forall|k: u32| #[trigger]
            m2.contains_key(k) && node_parent(m2[k]) is Some implies {
            let q = node_parent(m2[k])->0;
            m2.contains_key(q.0) && has_child(m2[q.0], NodeId(k))
        } by {
            assert(m.contains_key(k));
            if k == sib.0 {
            } else {
                if gp is Some && k == gp.unwrap().0 {
                    lemma_replace_child_facts(m[k], p, sib);
                }
                let q = node_parent(m[k])->0;
                assert(node_parent(m2[k]) == Some(q));
                assert(m.contains_key(q.0) && has_child(m[q.0], NodeId(k)));
                assert(q.0 != x.0);
                assert(q.0 != p.0) by {
                    if q.0 == p.0 {
                        assert(NodeId(k) == x || NodeId(k) == sib);
                    }
                }
                if gp is Some && q == gp.unwrap() {
                    if q == sib {
                        lemma_replace_child_facts(ms, p, sib);
                    } else {
                        lemma_replace_child_facts(m[q.0], p, sib);
                    }
                } else if q == sib {
                } else {
                    assert(m2[q.0] == m[q.0]);
                }
            }
        }
        assert forall|k: u32| #[trigger] m2.contains_key(k) && m2[k] is Split implies {
            let f = m2[k]->first;
            let s = m2[k]->second;
            &&& f != s
            &&& m2.contains_key(f.0)
            &&& m2.contains_key(s.0)
            &&& node_parent(m2[f.0]) == Some(NodeId(k))
            &&& node_parent(m2[s.0]) == Some(NodeId(k))
        } by {
            assert(m.contains_key(k));
            let mk = m[k];
            lemma_with_parent_facts(mk, gp);
            lemma_replace_child_facts(mk, p, sib);
            lemma_replace_child_facts(with_parent(mk, gp), p, sib);
            assert(mk is Split);
            let f1 = mk->first;
            let s1 = mk->second;
            assert(f1 != s1);
            assert(m.contains_key(f1.0) && m.contains_key(s1.0));
            assert(node_parent(m[f1.0]) == Some(NodeId(k)));
            assert(node_parent(m[s1.0]) == Some(NodeId(k)));
            assert(f1 != x && s1 != x);
            if gp is Some && f1 == gp.unwrap() && f1 != sib {
                lemma_replace_child_facts(m[f1.0], p, sib);
            }
            if gp is Some && s1 == gp.unwrap() && s1 != sib {
                lemma_replace_child_facts(m[s1.0], p, sib);
            }
            if f1 != sib && f1 != p && !(gp is Some && f1 == gp.unwrap()) {
                assert(m2[f1.0] == m[f1.0]);
            }
            if s1 != sib && s1 != p && !(gp is Some && s1 == gp.unwrap()) {
                assert(m2[s1.0] == m[s1.0]);
            }
        }
    }
}

/// Law: removing a pane that is not the root succeeds and keeps the links
/// of the tree consistent, and keeps a tree without cycles without cycles.
pub proof fn law_remove_pane_keeps_wf(m: Map<u32, Node>, root: NodeId, x: NodeId)
    requires
        links_wf(m, root),
        m.contains_key(x.0),
        m[x.0] is Pane,
        x != root,
    ensures
        node_parent(m[x.0]) is Some,
        ({
            let p = node_parent(m[x.0]).unwrap();
            &&& p.0 != x.0
            &&& m.contains_key(p.0)
            &&& m[p.0] is Split
            &&& links_wf(removal_result(m, root, x, p).0, removal_result(m, root, x, p).1)
            &&& acyclic(m) ==> tree_wf(
                removal_result(m, root, x, p).0,
                removal_result(m, root, x, p).1,
            )
        }),
{
    lemma_removed_links(m, root, x);
    if acyclic(m) {
        lemma_removed_shape(m, root, x);
        let p = node_parent(m[x.0]).unwrap();
        let pn = m[p.0];
        let sib = if x == pn->first { pn->second } else { pn->first };
        let (m2, r2) = removal_result(m, root, x, p);
        lemma_removed_wf(m, root, m2, r2, x, p, sib);
    }
}

/// Giving a node back its own parent undoes a change of parent.
proof fn lemma_with_parent_back(x: Node, p: Option<NodeId>)
    ensures
        with_parent(with_parent(x, p), node_parent(x)) == x,
        node_parent(with_parent(x, p)) == p,
{
}

/// Replacing a part and then replacing it back gives the split back.
proof fn lemma_replace_child_back(x: Node, u: NodeId, v: NodeId)
    requires
        x is Split,
        x->first != x->second,
        has_child(x, u),
        !has_child(x, v),
    ensures
        replace_child(replace_child(x, u, v), v, u) == x,
        node_parent(replace_child(x, u, v)) == node_parent(x),
{
}

#[verifier::rlimit(60)]
proof fn lemma_removal_undoes_add(
    m: Map<u32, Node>,
    root: NodeId,
    m2: Map<u32, Node>,
    r2: NodeId,
    n: NodeId,
    zone: DropZone,
    key: RelationKey,
    a: u32,
)
    requires
        links_wf(m, root),
        added_shape(m, root, m2, r2, n, zone, key, a),
    ensures
        removal_result(m2, r2, NodeId(a), NodeId((a + 1) as u32)) == (m, root),
{
    let b = (a + 1) as u32;
    let nb = NodeId(b);
    let par = node_parent(m[n.0]);
    lemma_with_parent_back(m[n.0], Some(nb));
    let pn = m2[b];
    let sib = if NodeId(a) == pn->first { pn->second } else { pn->first };
    assert(sib == n);
    let m1 = m2.remove(a).remove(b);
    assert(m1.contains_key(n.0));
    let ma = m1.insert(n.0, with_parent(m1[n.0], par));
    let (m3, r3) = removal_result(m2, r2, NodeId(a), nb);
    if par is Some {
        let g = par.unwrap();
        assert(m.contains_key(g.0) && has_child(m[g.0], n));
        assert(m[g.0] is Split);
        assert(m[g.0]->first != m[g.0]->second);
        assert(!has_child(m[g.0], nb)) by {
            if has_child(m[g.0], nb) {
                assert(m.contains_key(b));
            }
        }
        lemma_replace_child_back(m[g.0], n, nb);
        assert(ma.contains_key(g.0));
        assert(m3 == ma.insert(g.0, replace_child(ma[g.0], nb, n)));
        if g == n {
            let x = m[n.0];
            assert(with_parent(replace_child(with_parent(x, Some(nb)), n, nb), Some(n))
                == replace_child(x, n, nb));
            assert(ma[n.0] == replace_child(x, n, nb));
            assert(m3[n.0] == x);
        } else {
            assert(ma[n.0] == m[n.0]);
        }
        assert(m3.dom() =~= m.dom());
        assert forall|k: u32| #[trigger] m.contains_key(k) implies m3[k] == m[k] by {
            if k != n.0 && k != g.0 {
                assert(m2[k] == m[k]);
            }
        }
        assert(m3 =~= m);
        assert(r3 == root);
    } else {
        assert(ma[n.0] == m[n.0]);
        assert(m3 == ma);
        assert(m3.dom() =~= m.dom());
        assert forall|k: u32| #[trigger] m.contains_key(k) implies m3[k] == m[k] by {
            if k != n.0 {
                assert(m2[k] == m[k]);
            }
        }
        assert(m3 =~= m);
        assert(n == root);
    }
}

/// Law: removing the pane that was just dropped on a node of a tree whose
/// links are consistent gives the tree back as it was.
pub proof fn law_add_then_remove_restores(
    m: Map<u32, Node>,
    root: NodeId,
    n: NodeId,
    zone: DropZone,
    key: RelationKey,
    a: u32,
)
    requires
        links_wf(m, root),
        m.contains_key(n.0),
        is_next_id(m, a as int),
        a + 1 <= u32::MAX,
    ensures
        ({
            let (m2, r2) = added_result(m, root, n, zone, key, a);
            let b = (a + 1) as u32;
            &&& m2.contains_key(a)
            &&& node_parent(m2[a]) == Some(NodeId(b))
            &&& m2.contains_key(b) && m2[b] is Split && b != a
            &&& removal_result(m2, r2, NodeId(a), NodeId(b)) == (m, root)
        }),
{
    lemma_added_shape(m, root, n, zone, key, a);
    let (m2, r2) = added_result(m, root, n, zone, key, a);
    lemma_removal_undoes_add(m, root, m2, r2, n, zone, key, a);
}


/// Replacing node `id` by a node with the same parent and, for a split, the
/// same parts keeps the links of a tree consistent, and keeps a tree
/// without cycles without cycles.
proof fn lemma_same_shape_keeps_wf(m: Map<u32, Node>, root: NodeId, id: u32, n2: Node)
    requires
        links_wf(m, root),
        m.contains_key(id),
        node_parent(n2) == node_parent(m[id]),
        n2 is Split <==> m[id] is Split,
        n2 is Split ==> n2->first == m[id]->first && n2->second == m[id]->second,
    ensures
        links_wf(m.insert(id, n2), root),
        acyclic(m) ==> acyclic(m.insert(id, n2)),
{
    let m2 = m.insert(id, n2);
    if acyclic(m) {
        let d = choose|d: spec_fn(u32) -> int| #[trigger] depth_ok(m, d);
        assert forall|k: u32| #[trigger]
            m2.contains_key(k) && node_parent(m2[k]) is Some implies d(node_parent(m2[k]).unwrap().0) < d(k) by {
            assert(m.contains_key(k) && node_parent(m[k]) is Some);
        }
        assert(depth_ok(m2, d));
    }
    assert forall|k: u32| #[trigger]
        m2.contains_key(k) && node_parent(m2[k]) is Some implies ({
            let p = node_parent(m2[k])->0;
            m2.contains_key(p.0) && has_child(m2[p.0], NodeId(k))
        }) by {
        assert(m.contains_key(k) && node_parent(m[k]) is Some);
        let p = node_parent(m[k])->0;
        assert(has_child(m[p.0], NodeId(k)));
    }
    assert forall|k: u32| #[trigger]
        m2.contains_key(k) && m2[k] is Split implies ({
            let f = m2[k]->first;
            let s = m2[k]->second;
            &&& f != s
            &&& m2.contains_key(f.0)
            &&& m2.contains_key(s.0)
            &&& node_parent(m2[f.0]) == Some(NodeId(k))
            &&& node_parent(m2[s.0]) == Some(NodeId(k))
        }) by {
        assert(m.contains_key(k) && m[k] is Split);
    }
}

/// Law: changing the relation that a pane shows keeps the links of the tree
/// consistent, and a tree without cycles without cycles.
pub proof fn law_pane_key_keeps_wf(m: Map<u32, Node>, root: NodeId, id: NodeId, key: RelationKey)
    requires
        links_wf(m, root),
        m.contains_key(id.0),
        m[id.0] is Pane,
    ensures
        links_wf(
            m.insert(id.0, Node::Pane { parent: node_parent(m[id.0]), relation_key: key }),
            root,
        ),
        acyclic(m) ==> tree_wf(
            m.insert(id.0, Node::Pane { parent: node_parent(m[id.0]), relation_key: key }),
            root,
        ),
{
    lemma_same_shape_keeps_wf(m, root, id.0, Node::Pane { parent: node_parent(m[id.0]), relation_key: key });
}

/// Law: changing the share of a split keeps the links of the tree
/// consistent, and a tree without cycles without cycles.
pub proof fn law_split_ratio_keeps_wf(m: Map<u32, Node>, root: NodeId, id: NodeId, ratio_per_mille: u32)
    requires
        links_wf(m, root),
        m.contains_key(id.0),
        m[id.0] is Split,
    ensures
        acyclic(m) ==> acyclic(
            m.insert(
                id.0,
                Node::Split {
                    parent: m[id.0]->Split_parent,
                    direction: m[id.0]->direction,
                    ratio_per_mille,
                    first: m[id.0]->first,
                    second: m[id.0]->second,
                },
            ),
        ),
        links_wf(
            m.insert(
                id.0,
                Node::Split {
                    parent: m[id.0]->Split_parent,
                    direction: m[id.0]->direction,
                    ratio_per_mille,
                    first: m[id.0]->first,
                    second: m[id.0]->second,
                },
            ),
            root,
        ),
{
    let n = m[id.0];
    lemma_same_shape_keeps_wf(
        m,
        root,
        id.0,
        Node::Split {
            parent: n->Split_parent,
            direction: n->direction,
            ratio_per_mille,
            first: n->first,
            second: n->second,
        },
    );
}

/// Law: a drop on a zone puts the new pane on that side of the node: above
/// (Top) or to the left (Left) it comes first in the new split, below
/// (Bottom) or to the right (Right) the node comes first; Top and Bottom
/// split in a column, Left and Right in a row.
pub proof fn law_drop_zone_sides(
    m: Map<u32, Node>,
    root: NodeId,
    n: NodeId,
    zone: DropZone,
    key: RelationKey,
    a: u32,
)
    requires
        links_wf(m, root),
        m.contains_key(n.0),
        is_next_id(m, a as int),
        a + 1 <= u32::MAX,
    ensures
        ({
            let sb = added_result(m, root, n, zone, key, a).0[(a + 1) as u32];
            &&& sb is Split
            &&& (zone == DropZone::Top || zone == DropZone::Left) ==> sb->first == NodeId(a)
                && sb->second == n
            &&& (zone == DropZone::Bottom || zone == DropZone::Right) ==> sb->first == n
                && sb->second == NodeId(a)
            &&& (zone == DropZone::Top || zone == DropZone::Bottom) ==> sb->direction
                == SplitDirection::Column
            &&& (zone == DropZone::Left || zone == DropZone::Right) ==> sb->direction
                == SplitDirection::Row
        }),
{
    lemma_added_shape(m, root, n, zone, key, a);
}

/// Law: a drop makes a new pane showing the dropped relation, under a new
/// split that takes the node's parent, is cut half and half, and becomes
/// the node's parent.
pub proof fn law_drop_zone_placement(
    m: Map<u32, Node>,
    root: NodeId,
    n: NodeId,
    zone: DropZone,
    key: RelationKey,
    a: u32,
)
    requires
        links_wf(m, root),
        m.contains_key(n.0),
        is_next_id(m, a as int),
        a + 1 <= u32::MAX,
    ensures
        ({
            let m2 = added_result(m, root, n, zone, key, a).0;
            let b = (a + 1) as u32;
            &&& m2.contains_key(a) && m2.contains_key(b)
            &&& m2[a] == Node::Pane { parent: Some(NodeId(b)), relation_key: key }
            &&& m2[b] is Split
            &&& node_parent(m2[b]) == node_parent(m[n.0])
            &&& m2[b]->ratio_per_mille == 500
            &&& node_parent(m2[n.0]) == Some(NodeId(b))
        }),
{
    lemma_added_shape(m, root, n, zone, key, a);
    let b = (a + 1) as u32;
    lemma_with_parent_facts(m[n.0], Some(NodeId(b)));
    lemma_replace_child_facts(with_parent(m[n.0], Some(NodeId(b))), n, NodeId(b));
}

/// Law: removing a pane that is not the root takes out the pane and its
/// parent split; the other part of that split takes the split's place: it
/// gets the split's parent, which now holds it where it held the split, or
/// it becomes the root when the split was the root. Every other node stays.
pub proof fn law_remove_pane_effect(m: Map<u32, Node>, root: NodeId, x: NodeId)
    requires
        links_wf(m, root),
        m.contains_key(x.0),
        m[x.0] is Pane,
        x != root,
    ensures
        node_parent(m[x.0]) is Some,
        ({
            let p = node_parent(m[x.0]).unwrap();
            let pn = m[p.0];
            let sib = if x == pn->first { pn->second } else { pn->first };
            let gp = node_parent(pn);
            let (m2, r2) = removal_result(m, root, x, p);
            &&& m.contains_key(p.0) && pn is Split && has_child(pn, x)
            &&& has_child(pn, sib) && sib != x
            &&& forall|k: u32| #[trigger] m2.contains_key(k) <==> (m.contains_key(k) && k != x.0 && k != p.0)
            &&& gp is None ==> r2 == sib
            &&& gp is Some ==> r2 == root
            &&& sib != p ==> node_parent(m2[sib.0]) == gp
            &&& (gp is Some && gp.unwrap() != sib && gp.unwrap() != p) ==> {
                let g = gp.unwrap();
                &&& has_child(m2[g.0], sib)
                &&& !has_child(m2[g.0], p)
                &&& node_parent(m2[g.0]) == node_parent(m[g.0])
                &&& forall|c: NodeId| c != p && #[trigger] has_child(m[g.0], c) ==> has_child(m2[g.0], c)
            }
            &&& forall|k: u32|
                m2.contains_key(k) && k != sib.0 && (gp is None || k != gp.unwrap().0) ==> #[trigger] m2[k]
                    == m[k]
        }),
{
    let p = node_parent(m[x.0]).unwrap();
    assert(m.contains_key(p.0) && has_child(m[p.0], x));
    let pn = m[p.0];
    let sib = if x == pn->first { pn->second } else { pn->first };
    let gp = node_parent(pn);
    assert(node_parent(m[pn->first.0]) == Some(p));
    assert(node_parent(m[pn->second.0]) == Some(p));
    let (m2, r2) = removal_result(m, root, x, p);
    lemma_with_parent_facts(m[sib.0], gp);
    if gp is Some {
        let g = gp.unwrap();
        assert(m.contains_key(g.0) && has_child(m[g.0], p));
        assert(g.0 != x.0);
        let mg = m[g.0];
        lemma_replace_child_facts(mg, p, sib);
        if g != sib && g != p {
            assert(mg->first != mg->second);
            assert(!has_child(replace_child(mg, p, sib), p));
        }
    }
}

} // verus!
