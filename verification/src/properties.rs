//! Properties of a space as the REST interface lists them.
use vstd::prelude::*;
use crate::invite::opt_text;
use crate::id_map::IdMap;
use crate::text::{same_text, texts};

verus! {

/// A property of a space: its key, and its identifier when it has one.
#[derive(Clone, PartialEq, Debug)]
pub struct PropertyRef {
    pub key: String,
    pub id: Option<String>,
}

/// Whether no property before position `n` has key `key`.
pub open spec fn no_key_before(ps: Seq<PropertyRef>, key: Seq<char>, n: int) -> bool {
    forall|j: int| 0 <= j < n ==> #[trigger] ps[j].key@ != key
}

/// The identifier of the first property with key `key` (which may itself
/// have none), or none when no property has that key.
pub open spec fn first_id_with_key(ps: Seq<PropertyRef>, key: Seq<char>) -> Option<Seq<char>>
    decreases ps.len(),
{
    if ps.len() == 0 {
        None
    } else if ps[0].key@ == key {
        opt_text(ps[0].id)
    } else {
        first_id_with_key(ps.drop_first(), key)
    }
}

proof fn lemma_first_id_skip(ps: Seq<PropertyRef>, key: Seq<char>, i: int)
    requires
        0 <= i <= ps.len(),
        no_key_before(ps, key, i),
    ensures
        first_id_with_key(ps, key) == first_id_with_key(ps.skip(i), key),
    decreases i,
{
    if i > 0 {
        assert(ps[0].key@ != key);
        assert(ps.drop_first().skip(i - 1) =~= ps.skip(i));
        assert forall|j: int| 0 <= j < i - 1 implies #[trigger] ps.drop_first()[j].key@ != key by {
            assert(ps.drop_first()[j] == ps[j + 1]);
        }
        lemma_first_id_skip(ps.drop_first(), key, i - 1);
    } else {
        assert(ps.skip(0) =~= ps);
    }
}

/// The identifier of the first property whose key is `key`: the first
/// match decides, also when it has no identifier.
pub fn get_property_id_by_key(properties: &Vec<PropertyRef>, key: &str) -> (r: Option<String>)
    ensures
        opt_text(r) == first_id_with_key(properties@, key@),
{
    let mut i: usize = 0;
    while i < properties.len()
        invariant
            i <= properties.len(),
            no_key_before(properties@, key@, i as int),
        decreases properties.len() - i,
    {
        if same_text(properties[i].key.as_str(), key) {
            proof {
                lemma_first_id_skip(properties@, key@, i as int);
            }
            return properties[i].id.clone();
        }
        i = i + 1;
    }
    proof {
        lemma_first_id_skip(properties@, key@, i as int);
    }
    None
}

/// `m` with each of `ids` marked as shown.
pub open spec fn all_shown(m: Map<Seq<char>, bool>, ids: Seq<Seq<char>>) -> Map<Seq<char>, bool>
    decreases ids.len(),
{
    if ids.len() == 0 {
        m
    } else {
        all_shown(m, ids.drop_last()).insert(ids.last(), true)
    }
}

/// Law: after registering, every listed identifier is shown and every
/// other identifier keeps its setting (or stays absent).
pub proof fn law_all_shown(m: Map<Seq<char>, bool>, ids: Seq<Seq<char>>)
    ensures
        forall|k: Seq<char>| ids.contains(k) ==> #[trigger] all_shown(m, ids).contains_key(k)
            && all_shown(m, ids)[k] == true,
        forall|k: Seq<char>| !ids.contains(k) ==> (#[trigger] all_shown(m, ids).contains_key(k)
            == m.contains_key(k) && all_shown(m, ids)[k] == m[k]),
    decreases ids.len(),
{
    if ids.len() > 0 {
        let init = ids.drop_last();
        law_all_shown(m, init);
        assert forall|k: Seq<char>| ids.contains(k) implies #[trigger] all_shown(m, ids).contains_key(k)
            && all_shown(m, ids)[k] == true by {
            assert(all_shown(m, ids) == all_shown(m, init).insert(ids.last(), true));
            if k != ids.last() {
                let i = choose|i: int| 0 <= i < ids.len() && ids[i] == k;
                assert(i < init.len());
                assert(init[i] == k);
                assert(init.contains(k));
                assert(all_shown(m, init).contains_key(k) && all_shown(m, init)[k] == true);
            }
        }
        assert forall|k: Seq<char>| !ids.contains(k) implies (#[trigger] all_shown(m, ids).contains_key(k)
            == m.contains_key(k) && all_shown(m, ids)[k] == m[k]) by {
            assert(all_shown(m, ids) == all_shown(m, init).insert(ids.last(), true));
            assert(k != ids[ids.len() - 1]);
            if init.contains(k) {
                let i = choose|i: int| 0 <= i < init.len() && init[i] == k;
                assert(ids[i] == k);
            }
            assert(all_shown(m, init).contains_key(k) == m.contains_key(k));
        }
    }
}

/// Law: the identifier looked up for `key` is that of the first property
/// with that key (which may have none), and none when no property has it.
pub proof fn law_first_id_with_key(ps: Seq<PropertyRef>, key: Seq<char>)
    ensures
        forall|i: int|
            0 <= i < ps.len() && #[trigger] ps[i].key@ == key && (forall|j: int|
                0 <= j < i ==> ps[j].key@ != key) ==> first_id_with_key(ps, key) == opt_text(ps[i].id),
        (forall|i: int| 0 <= i < ps.len() ==> ps[i].key@ != key) ==> first_id_with_key(ps, key)
            is None,
    decreases ps.len(),
{
    if ps.len() > 0 {
        let rest = ps.drop_first();
        law_first_id_with_key(rest, key);
        if ps[0].key@ == key {
            assert forall|i: int|
                0 <= i < ps.len() && #[trigger] ps[i].key@ == key && (forall|j: int|
                    0 <= j < i ==> ps[j].key@ != key) implies i == 0 by {
                if i > 0 {
                    assert(ps[0].key@ != key);
                }
            }
        } else {
            assert forall|i: int|
                0 <= i < ps.len() && #[trigger] ps[i].key@ == key && (forall|j: int|
                    0 <= j < i ==> ps[j].key@ != key) implies first_id_with_key(ps, key) == opt_text(
                ps[i].id,
            ) by {
                assert(i > 0);
                assert(rest[i - 1] == ps[i]);
                assert forall|j: int| 0 <= j < i - 1 implies rest[j].key@ != key by {
                    assert(rest[j] == ps[j + 1]);
                }
            }
            if forall|i: int| 0 <= i < ps.len() ==> ps[i].key@ != key {
                assert forall|i: int| 0 <= i < rest.len() implies rest[i].key@ != key by {
                    assert(rest[i] == ps[i + 1]);
                }
            }
        }
    }
}

/// Registers the listed properties of a space: each identifier is appended
/// to the order of properties and marked as shown.
pub fn register_properties(order: &mut Vec<String>, show: &mut IdMap<bool>, ids: Vec<String>)
    ensures
        texts(final(order)@) == texts(old(order)@) + texts(ids@),
        final(show)@ == all_shown(old(show)@, texts(ids@)),
{
    let mut i: usize = 0;
    assert(texts(ids@).take(0) =~= Seq::<Seq<char>>::empty());
    assert(texts(order@) =~= texts(old(order)@) + texts(ids@).take(0));
    while i < ids.len()
        invariant
            i <= ids.len(),
            texts(order@) == texts(old(order)@) + texts(ids@).take(i as int),
            show@ == all_shown(old(show)@, texts(ids@).take(i as int)),
        decreases ids.len() - i,
    {
        let id = ids[i].clone();
        let ghost before = texts(order@);
        order.push(id.clone());
        show.insert(id, true);
        assert(texts(ids@).take(i + 1).drop_last() =~= texts(ids@).take(i as int));
        assert(texts(order@) =~= before.push(ids@[i as int]@));
        assert(texts(order@) =~= texts(old(order)@) + texts(ids@).take(i + 1));
        i = i + 1;
    }
    assert(texts(ids@).take(ids.len() as int) =~= texts(ids@));
}

} // verus!
