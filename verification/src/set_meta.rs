//! The open set (or collection): its name, its source types, and its views
//! with their filters and sorts, as the engine's view events change them.
use vstd::prelude::*;
use crate::events::{AmendEntry, DetailsAmend, DetailsSet};
use vstd::multiset::Multiset;
use crate::fields::{extract_list_strings, extract_string, list_texts, text_of, FieldValue};
use crate::list_objects::entry_value;
use crate::text::{contains_text, index_of, lemma_index_of, lemma_index_of_is, same_text, texts};

verus! {

/// An item of a view (a filter or a sort) with its identifier.
#[derive(Clone, PartialEq, Debug)]
pub struct Keyed<T> {
    pub id: String,
    pub item: T,
}

/// A view of a set: its filters and sorts, in order.
#[derive(Clone, PartialEq, Debug)]
pub struct DataView<F, S> {
    pub id: String,
    pub name: String,
    pub filters: Vec<Keyed<F>>,
    pub sorts: Vec<Keyed<S>>,
}

/// A change to the filters or sorts of a view.
#[derive(Clone, PartialEq, Debug)]
pub enum ListChange<T> {
    /// Items inserted after the item `after_id` (first when empty or absent).
    Add { after_id: String, items: Vec<Keyed<T>> },
    /// Every item with one of the identifiers taken out.
    Remove { ids: Vec<String> },
    /// The first item with the identifier replaced (when an item is given).
    Update { id: String, item: Option<Keyed<T>> },
    /// The items with the identifiers moved, in that order, after `after_id`.
    Move { after_id: String, ids: Vec<String> },
}

/// A view was set (created or replaced).
#[derive(Clone, PartialEq, Debug)]
pub struct ViewSet<F, S> {
    pub view_id: String,
    pub view: Option<DataView<F, S>>,
}

/// A view was deleted.
#[derive(Clone, PartialEq, Debug)]
pub struct ViewDelete {
    pub view_id: String,
}

/// The changed fields of a view.
#[derive(Clone, PartialEq, Debug)]
pub struct ViewFields {
    pub name: String,
}

/// A view changed.
#[derive(Clone, PartialEq, Debug)]
pub struct ViewUpdate<F, S> {
    pub view_id: String,
    pub fields: Option<ViewFields>,
    pub filter: Vec<Option<ListChange<F>>>,
    pub sort: Vec<Option<ListChange<S>>>,
}

/// The views were reordered.
#[derive(Clone, PartialEq, Debug)]
pub struct ViewOrder {
    pub view_ids: Vec<String>,
}

/// The identifiers of a list of items.
pub open spec fn keys<T>(s: Seq<Keyed<T>>) -> Seq<Seq<char>> {
    s.map_values(|e: Keyed<T>| e.id@)
}

/// Where items go when they are put after `after`: first when `after` is
/// empty or does not occur, right after its first occurrence otherwise.
pub open spec fn add_position(ids: Seq<Seq<char>>, after: Seq<char>) -> int {
    if after.len() == 0 || index_of(ids, after) == -1 {
        0
    } else {
        index_of(ids, after) + 1
    }
}

/// `s` without the items whose identifier is one of `ids`.
pub open spec fn drop_ids<T>(s: Seq<Keyed<T>>, ids: Seq<Seq<char>>) -> Seq<Keyed<T>>
    decreases s.len(),
{
    if s.len() == 0 {
        s
    } else {
        let r = drop_ids(s.drop_last(), ids);
        if ids.contains(s.last().id@) {
            r
        } else {
            r.push(s.last())
        }
    }
}

/// The items left and the items taken out, in the order of `ids`, when the
/// first item with each identifier of `ids` is taken out in turn.
pub open spec fn extract_moved<T>(s: Seq<Keyed<T>>, ids: Seq<Seq<char>>) -> (Seq<Keyed<T>>, Seq<Keyed<T>>)
    decreases ids.len(),
{
    if ids.len() == 0 {
        (s, Seq::empty())
    } else {
        let (rest, moved) = extract_moved(s, ids.drop_last());
        let k = index_of(keys(rest), ids.last());
        if k == -1 {
            (rest, moved)
        } else {
            (rest.remove(k), moved.push(rest[k]))
        }
    }
}

/// The items after a change.
pub open spec fn apply_change<T>(s: Seq<Keyed<T>>, c: ListChange<T>) -> Seq<Keyed<T>> {
    match c {
        ListChange::Add { after_id, items } => {
            let pos = add_position(keys(s), after_id@);
            s.take(pos) + items@ + s.skip(pos)
        },
        ListChange::Remove { ids } => drop_ids(s, texts(ids@)),
        ListChange::Update { id, item } => {
            let k = index_of(keys(s), id@);
            if k != -1 && item is Some {
                s.update(k, item.unwrap())
            } else {
                s
            }
        },
        ListChange::Move { after_id, ids } => {
            let (rest, moved) = extract_moved(s, texts(ids@));
            let pos = add_position(keys(rest), after_id@);
            rest.take(pos) + moved + rest.skip(pos)
        },
    }
}

/// The items after the changes, in order (a missing change does nothing).
pub open spec fn apply_changes<T>(s: Seq<Keyed<T>>, cs: Seq<Option<ListChange<T>>>) -> Seq<Keyed<T>>
    decreases cs.len(),
{
    if cs.len() == 0 {
        s
    } else {
        let r = apply_changes(s, cs.drop_last());
        match cs.last() {
            Some(c) => apply_change(r, c),
            None => r,
        }
    }
}

/// Finds the first item with identifier `id`.
pub fn find_key<T>(items: &Vec<Keyed<T>>, id: &str) -> (r: Option<usize>)
    ensures
        match r {
            Some(i) => index_of(keys(items@), id@) == i as int && i < items@.len(),
            None => index_of(keys(items@), id@) == -1,
        },
{
    let mut i: usize = 0;
    while i < items.len()
        invariant
            i <= items.len(),
            forall|j: int| 0 <= j < i ==> items@[j].id@ != id@,
        decreases items.len() - i,
    {
        if same_text(items[i].id.as_str(), id) {
            proof {
                lemma_index_of_is(keys(items@), id@, i as int);
            }
            return Some(i);
        }
        i = i + 1;
    }
    proof {
        lemma_index_of_is(keys(items@), id@, -1);
    }
    None
}

/// Finds the insertion index for new items: right after the first item with
/// identifier `after_id`; the start when `after_id` is empty or not found.
pub fn insert_pos_by_id<T>(after_id: &str, items: &Vec<Keyed<T>>) -> (r: usize)
    ensures
        r as int == add_position(keys(items@), after_id@),
        r <= items@.len(),
{
    if after_id.unicode_len() == 0 {
        return 0;
    }
    match find_key(items, after_id) {
        Some(i) => {
            assert(i < items.len());
            i + 1
        },
        None => 0,
    }
}

/// Applies one change to a list of filters or sorts.
pub fn apply_list_change<T>(items: &mut Vec<Keyed<T>>, change: ListChange<T>)
    ensures
        final(items)@ == apply_change(old(items)@, change),
{
    let ghost c = change;
    match change {
        ListChange::Add { after_id, items: mut added } => {
            let pos = insert_pos_by_id(after_id.as_str(), items);
            let mut tail = items.split_off(pos);
            items.append(&mut added);
            items.append(&mut tail);
            assert(items@ =~= old(items)@.take(pos as int) + c->Add_items@ + old(items)@.skip(pos as int));
        },
        ListChange::Remove { ids } => {
            let ghost orig = items@;
            let ghost idv = texts(ids@);
            let mut rest: Vec<Keyed<T>> = Vec::new();
            std::mem::swap(&mut rest, items);
            let ghost mut j: int = 0;
            assert(rest@ =~= orig.skip(0));
            assert(orig.take(0) =~= Seq::<Keyed<T>>::empty());
            while rest.len() > 0
                invariant
                    0 <= j <= orig.len(),
                    rest@ == orig.skip(j),
                    items@ == drop_ids(orig.take(j), idv),
                    idv == texts(ids@),
                decreases rest.len(),
            {
                assert(orig.take(j + 1).drop_last() =~= orig.take(j));
                assert(orig.take(j + 1).last() == orig[j]);
                let e = rest.remove(0);
                if !contains_text(&ids, e.id.as_str()) {
                    items.push(e);
                }
                proof {
                    assert(rest@ =~= orig.skip(j + 1));
                    j = j + 1;
                }
            }
            assert(orig.take(j) =~= orig);
        },
        ListChange::Update { id, item } => {
            match find_key(items, id.as_str()) {
                Some(i) => match item {
                    Some(it) => {
                        items.set(i, it);
                    },
                    None => {},
                },
                None => {},
            }
        },
        ListChange::Move { after_id, ids } => {
            let ghost orig = items@;
            let ghost idv = texts(ids@);
            let mut moved: Vec<Keyed<T>> = Vec::new();
            let mut j: usize = 0;
            assert(idv.take(0) =~= Seq::<Seq<char>>::empty());
            while j < ids.len()
                invariant
                    j <= ids.len(),
                    idv == texts(ids@),
                    (items@, moved@) == extract_moved(orig, idv.take(j as int)),
                decreases ids.len() - j,
            {
                assert(idv.take(j + 1).drop_last() =~= idv.take(j as int));
                assert(idv.take(j + 1).last() == ids@[j as int]@);
                match find_key(items, ids[j].as_str()) {
                    Some(idx) => {
                        let e = items.remove(idx);
                        moved.push(e);
                    },
                    None => {},
                }
                j = j + 1;
            }
            assert(idv.take(ids.len() as int) =~= idv);
            let ghost rest = items@;
            let pos = insert_pos_by_id(after_id.as_str(), items);
            let mut tail = items.split_off(pos);
            let ghost mv = moved@;
            items.append(&mut moved);
            items.append(&mut tail);
            assert(items@ =~= rest.take(pos as int) + mv + rest.skip(pos as int));
        },
    }
}

/// Applies changes, in order, to a list of filters or sorts.
pub fn apply_list_changes<T>(items: &mut Vec<Keyed<T>>, changes: Vec<Option<ListChange<T>>>)
    ensures
        final(items)@ == apply_changes(old(items)@, changes@),
{
    let ghost cs = changes@;
    let ghost orig = items@;
    let mut rest = changes;
    let ghost mut j: int = 0;
    assert(rest@ =~= cs.skip(0));
    assert(cs.take(0) =~= Seq::<Option<ListChange<T>>>::empty());
    while rest.len() > 0
        invariant
            0 <= j <= cs.len(),
            rest@ == cs.skip(j),
            items@ == apply_changes(orig, cs.take(j)),
        decreases rest.len(),
    {
        assert(cs.take(j + 1).drop_last() =~= cs.take(j));
        assert(cs.take(j + 1).last() == cs[j]);
        let c = rest.remove(0);
        match c {
            Some(change) => apply_list_change(items, change),
            None => {},
        }
        proof {
            assert(rest@ =~= cs.skip(j + 1));
            j = j + 1;
        }
    }
    assert(cs.take(j) =~= cs);
}

/// The identifiers of a list of views.
pub open spec fn view_ids<F, S>(s: Seq<DataView<F, S>>) -> Seq<Seq<char>> {
    s.map_values(|v: DataView<F, S>| v.id@)
}

/// `new` is `old` after the update `v`: the first view with its identifier
/// gets the new name (when given) and the filter and sort changes, in order,
/// and every other view stays; without such a view nothing changes.
pub open spec fn view_updated<F, S>(
    old: Seq<DataView<F, S>>,
    new: Seq<DataView<F, S>>,
    v: ViewUpdate<F, S>,
) -> bool {
    let k = index_of(view_ids(old), v.view_id@);
    if k == -1 {
        new == old
    } else {
        let ov = old[k];
        let nv = new[k];
        &&& new.len() == old.len()
        &&& forall|i: int| 0 <= i < old.len() && i != k ==> new[i] == old[i]
        &&& nv.id == ov.id
        &&& nv.name@ == match v.fields {
            Some(f) => f.name@,
            None => ov.name@,
        }
        &&& nv.filters@ == apply_changes(ov.filters@, v.filter@)
        &&& nv.sorts@ == apply_changes(ov.sorts@, v.sort@)
    }
}

/// `s` without the views whose identifier is `id`.
pub open spec fn drop_views<F, S>(s: Seq<DataView<F, S>>, id: Seq<char>) -> Seq<DataView<F, S>>
    decreases s.len(),
{
    if s.len() == 0 {
        s
    } else {
        let r = drop_views(s.drop_last(), id);
        if s.last().id@ == id {
            r
        } else {
            r.push(s.last())
        }
    }
}

/// The place of a view in an ordering: the first position of its identifier
/// in `ids`, or -1 when it is not listed.
pub open spec fn view_rank<F, S>(ids: Seq<Seq<char>>, v: DataView<F, S>) -> int {
    index_of(ids, v.id@)
}

/// The views of `s` with place `k`, in order.
pub open spec fn with_rank<F, S>(s: Seq<DataView<F, S>>, ids: Seq<Seq<char>>, k: int) -> Seq<DataView<F, S>>
    decreases s.len(),
{
    if s.len() == 0 {
        s
    } else {
        let r = with_rank(s.drop_last(), ids, k);
        if view_rank(ids, s.last()) == k {
            r.push(s.last())
        } else {
            r
        }
    }
}

/// The views of `s` with a place other than `k`, in order.
pub open spec fn not_rank<F, S>(s: Seq<DataView<F, S>>, ids: Seq<Seq<char>>, k: int) -> Seq<DataView<F, S>>
    decreases s.len(),
{
    if s.len() == 0 {
        s
    } else {
        let r = not_rank(s.drop_last(), ids, k);
        if view_rank(ids, s.last()) != k {
            r.push(s.last())
        } else {
            r
        }
    }
}

/// The views of `s` whose place is not below `k` (the unlisted ones too).
pub open spec fn beyond<F, S>(s: Seq<DataView<F, S>>, ids: Seq<Seq<char>>, k: int) -> Seq<DataView<F, S>>
    decreases s.len(),
{
    if s.len() == 0 {
        s
    } else {
        let r = beyond(s.drop_last(), ids, k);
        let q = view_rank(ids, s.last());
        if !(0 <= q < k) {
            r.push(s.last())
        } else {
            r
        }
    }
}

/// The views with places `k`, `k + 1`, ..., then the unlisted views.
pub open spec fn ranked_from<F, S>(s: Seq<DataView<F, S>>, ids: Seq<Seq<char>>, k: int) -> Seq<DataView<F, S>>
    decreases ids.len() - k,
{
    if k < 0 || k >= ids.len() {
        with_rank(s, ids, -1)
    } else {
        with_rank(s, ids, k) + ranked_from(s, ids, k + 1)
    }
}

/// The views with places below `k`, by place.
pub open spec fn ranked_below<F, S>(s: Seq<DataView<F, S>>, ids: Seq<Seq<char>>, k: int) -> Seq<DataView<F, S>>
    decreases k,
{
    if k <= 0 {
        Seq::empty()
    } else {
        ranked_below(s, ids, k - 1) + with_rank(s, ids, k - 1)
    }
}

/// The views ordered by the first position of their identifier in `ids`;
/// views with the same place keep their order, unlisted views come last.
pub open spec fn ordered_views<F, S>(s: Seq<DataView<F, S>>, ids: Seq<Seq<char>>) -> Seq<DataView<F, S>> {
    ranked_from(s, ids, 0)
}

proof fn lemma_beyond_split<F, S>(s: Seq<DataView<F, S>>, ids: Seq<Seq<char>>, k: int)
    requires
        k >= 0,
    ensures
        with_rank(beyond(s, ids, k), ids, k) == with_rank(s, ids, k),
        not_rank(beyond(s, ids, k), ids, k) == beyond(s, ids, k + 1),
    decreases s.len(),
{
    if s.len() > 0 {
        lemma_beyond_split(s.drop_last(), ids, k);
        let b = beyond(s.drop_last(), ids, k);
        let q = view_rank(ids, s.last());
        if !(0 <= q < k) {
            assert(beyond(s, ids, k).drop_last() =~= b);
        } else {
            assert(beyond(s, ids, k) == b);
        }
    }
}

proof fn lemma_beyond_zero<F, S>(s: Seq<DataView<F, S>>, ids: Seq<Seq<char>>)
    ensures
        beyond(s, ids, 0) == s,
    decreases s.len(),
{
    if s.len() > 0 {
        lemma_beyond_zero(s.drop_last(), ids);
        assert(s.drop_last().push(s.last()) =~= s);
    }
}

proof fn lemma_beyond_all<F, S>(s: Seq<DataView<F, S>>, ids: Seq<Seq<char>>)
    ensures
        beyond(s, ids, ids.len() as int) == with_rank(s, ids, -1),
    decreases s.len(),
{
    if s.len() > 0 {
        lemma_beyond_all(s.drop_last(), ids);
        lemma_index_of(ids, s.last().id@);
    }
}

proof fn lemma_ranked<F, S>(s: Seq<DataView<F, S>>, ids: Seq<Seq<char>>, k: int)
    requires
        0 <= k <= ids.len(),
    ensures
        ranked_below(s, ids, k) + ranked_from(s, ids, k) == ordered_views(s, ids),
    decreases k,
{
    if k > 0 {
        lemma_ranked(s, ids, k - 1);
        assert(ranked_below(s, ids, k) + ranked_from(s, ids, k) =~= ranked_below(s, ids, k - 1)
            + ranked_from(s, ids, k - 1));
    } else {
        assert(ranked_below(s, ids, k) + ranked_from(s, ids, k) =~= ranked_from(s, ids, 0));
    }
}

/// The data view content of a block: its views and the active one.
#[derive(Clone, PartialEq, Debug)]
pub struct DataviewContent<F, S> {
    pub views: Vec<DataView<F, S>>,
    pub active_view: String,
}

/// A block of an opened object; only data view content is read.
#[derive(Clone, PartialEq, Debug)]
pub struct Block<F, S> {
    pub id: String,
    pub dataview: Option<DataviewContent<F, S>>,
}

/// What the engine shows of an opened object: the details of the object
/// and of its dependencies (the object's own come first), and its blocks.
pub struct ObjectViewData<F, S> {
    pub details: Vec<Option<crate::fields::Fields>>,
    pub blocks: Vec<Block<F, S>>,
}

/// Why an opened object could not be shown as a set.
#[derive(Clone, Copy, PartialEq, Eq, Structural, Debug)]
pub enum OpenError {
    /// The engine sent no object view.
    MissingObjectView,
    /// No block is the data view.
    NoViews,
    /// The data view block holds no data view.
    NoDataview,
}

/// The identifier of the block that holds a set's views.
pub const DATAVIEW_BLOCK_ID: &'static str = "dataview";

/// The position of the first block with identifier `id`, or -1.
pub open spec fn block_index<F, S>(blocks: Seq<Block<F, S>>, id: Seq<char>) -> int {
    index_of(blocks.map_values(|b: Block<F, S>| b.id@), id)
}

/// The details of the object itself: those of the first entry, if any.
pub open spec fn own_details(details: Seq<Option<crate::fields::Fields>>) -> Option<crate::fields::Fields> {
    if details.len() > 0 {
        details[0]
    } else {
        None
    }
}

/// The details and views of the set that is open.
#[derive(Clone, PartialEq, Debug)]
pub struct SetMetaState<F, S> {
    pub id: String,
    pub name: String,
    pub set_of: Vec<String>,
    pub views: Vec<DataView<F, S>>,
    pub active_view_id: String,
}

/// The name and source types after amend entries, in order, were applied.
pub open spec fn amend_set_meta(name: Seq<char>, set_of: Seq<Seq<char>>, es: Seq<AmendEntry>) -> (Seq<char>, Seq<Seq<char>>)
    decreases es.len(),
{
    if es.len() == 0 {
        (name, set_of)
    } else {
        let (n, so) = amend_set_meta(name, set_of, es.drop_last());
        let e = es.last();
        if e.key@ == "name"@ {
            (text_of(Some(entry_value(e.value))), so)
        } else if e.key@ == "setOf"@ {
            (n, list_texts(e.value))
        } else {
            (n, so)
        }
    }
}

/// Law: after an amend, the name of the open set is the text of the last
/// `name` entry (empty for an entry without a value), or stays when no entry
/// has that key.
pub proof fn law_amend_set_meta_name(d: (Seq<char>, Seq<Seq<char>>), es: Seq<AmendEntry>)
    ensures
        forall|i: int|
            0 <= i < es.len() && #[trigger] es[i].key@ == "name"@ && (forall|j: int|
                i < j < es.len() ==> es[j].key@ != "name"@) ==> amend_set_meta(d.0, d.1, es).0 == text_of(Some(entry_value(es[i].value))),
        (forall|i: int| 0 <= i < es.len() ==> es[i].key@ != "name"@) ==> amend_set_meta(d.0, d.1, es).0 == d.0,
    decreases es.len(),
{
    reveal_strlit("name");
    reveal_strlit("setOf");
    if es.len() > 0 {
        let init = es.drop_last();
        law_amend_set_meta_name(d, init);
        let e = es.last();
        if e.key@ == "name"@ {
            assert forall|i: int|
                0 <= i < es.len() && #[trigger] es[i].key@ == "name"@ && (forall|j: int|
                    i < j < es.len() ==> es[j].key@ != "name"@) implies i == es.len() - 1 by {
                if i < es.len() - 1 {
                    assert(es[es.len() - 1].key@ != "name"@);
                }
            }
        } else {
            assert forall|i: int|
                0 <= i < es.len() && #[trigger] es[i].key@ == "name"@ && (forall|j: int|
                    i < j < es.len() ==> es[j].key@ != "name"@) implies amend_set_meta(d.0, d.1, es).0 == text_of(Some(entry_value(es[i].value))) by {
                assert(i < es.len() - 1);
                assert(init[i] == es[i]);
                assert forall|j: int| i < j < init.len() implies init[j].key@ != "name"@ by {
                    assert(init[j] == es[j]);
                }
            }
            if forall|i: int| 0 <= i < es.len() ==> es[i].key@ != "name"@ {
                assert forall|i: int| 0 <= i < init.len() implies init[i].key@ != "name"@ by {
                    assert(init[i] == es[i]);
                }
            }
        }
    }
}

/// Law: after an amend, the source types of the open set are the texts in
/// the list of the last `setOf` entry, or stay when no entry has that key.
pub proof fn law_amend_set_meta_set_of(d: (Seq<char>, Seq<Seq<char>>), es: Seq<AmendEntry>)
    ensures
        forall|i: int|
            0 <= i < es.len() && #[trigger] es[i].key@ == "setOf"@ && (forall|j: int|
                i < j < es.len() ==> es[j].key@ != "setOf"@) ==> amend_set_meta(d.0, d.1, es).1 == list_texts(es[i].value),
        (forall|i: int| 0 <= i < es.len() ==> es[i].key@ != "setOf"@) ==> amend_set_meta(d.0, d.1, es).1 == d.1,
    decreases es.len(),
{
    reveal_strlit("name");
    reveal_strlit("setOf");
    if es.len() > 0 {
        let init = es.drop_last();
        law_amend_set_meta_set_of(d, init);
        let e = es.last();
        assert("setOf"@.len() != "name"@.len());
        assert(amend_set_meta(d.0, d.1, es).1 == if e.key@ == "setOf"@ {
            list_texts(e.value)
        } else {
            amend_set_meta(d.0, d.1, init).1
        });
        if e.key@ == "setOf"@ {
            assert forall|i: int|
                0 <= i < es.len() && #[trigger] es[i].key@ == "setOf"@ && (forall|j: int|
                    i < j < es.len() ==> es[j].key@ != "setOf"@) implies i == es.len() - 1 by {
                if i < es.len() - 1 {
                    assert(es[es.len() - 1].key@ != "setOf"@);
                }
            }
        } else {
            assert forall|i: int|
                0 <= i < es.len() && #[trigger] es[i].key@ == "setOf"@ && (forall|j: int|
                    i < j < es.len() ==> es[j].key@ != "setOf"@) implies amend_set_meta(d.0, d.1, es).1 == list_texts(es[i].value) by {
                assert(i < es.len() - 1);
                assert(init[i] == es[i]);
                assert forall|j: int| i < j < init.len() implies init[j].key@ != "setOf"@ by {
                    assert(init[j] == es[j]);
                }
            }
            if forall|i: int| 0 <= i < es.len() ==> es[i].key@ != "setOf"@ {
                assert forall|i: int| 0 <= i < init.len() implies init[i].key@ != "setOf"@ by {
                    assert(init[i] == es[i]);
                }
            }
        }
    }
}

impl<F, S> SetMetaState<F, S> {
    /// A state with nothing open.
    pub fn new() -> (r: Self)
        ensures
            r.id@ == Seq::<char>::empty(),
            r.name@ == Seq::<char>::empty(),
            r.set_of@.len() == 0,
            r.views@.len() == 0,
            r.active_view_id@ == Seq::<char>::empty(),
    {
        SetMetaState {
            id: String::new(),
            name: String::new(),
            set_of: Vec::new(),
            views: Vec::new(),
            active_view_id: String::new(),
        }
    }

    /// All details of the set were sent: its name and source types are
    /// read from them (nothing changes when there are no details).
    pub fn handle_set(&mut self, v: DetailsSet)
        ensures
            final(self).id == old(self).id,
            final(self).views == old(self).views,
            final(self).active_view_id == old(self).active_view_id,
            v.details is None ==> final(self).name == old(self).name && final(self).set_of
                == old(self).set_of,
            v.details matches Some(f) ==> final(self).name@ == text_of(f@.get("name"@))
                && texts(final(self).set_of@) == list_texts(f@.get("setOf"@)),
    {
        match &v.details {
            None => {},
            Some(f) => {
                self.name = extract_string(f.get("name"));
                self.set_of = extract_list_strings(f.get("setOf"));
            },
        }
    }

    /// Some details of the set changed.
    pub fn handle_amend(&mut self, v: DetailsAmend)
        ensures
            final(self).id == old(self).id,
            final(self).views == old(self).views,
            final(self).active_view_id == old(self).active_view_id,
            (final(self).name@, texts(final(self).set_of@)) == amend_set_meta(
                old(self).name@,
                texts(old(self).set_of@),
                v.details@,
            ),
    {
        let mut i: usize = 0;
        assert(v.details@.take(0) =~= Seq::<AmendEntry>::empty());
        while i < v.details.len()
            invariant
                i <= v.details.len(),
                self.id == old(self).id,
                self.views == old(self).views,
                self.active_view_id == old(self).active_view_id,
                (self.name@, texts(self.set_of@)) == amend_set_meta(
                    old(self).name@,
                    texts(old(self).set_of@),
                    v.details@.take(i as int),
                ),
            decreases v.details.len() - i,
        {
            assert(v.details@.take(i + 1).drop_last() =~= v.details@.take(i as int));
            assert(v.details@.take(i + 1).last() == v.details@[i as int]);
            let e = &v.details[i];
            if same_text(e.key.as_str(), "name") {
                self.name = match &e.value {
                    Some(x) => extract_string(Some(x)),
                    None => extract_string(Some(&FieldValue::Empty)),
                };
            } else if same_text(e.key.as_str(), "setOf") {
                self.set_of = extract_list_strings(e.value.as_ref());
            }
            i = i + 1;
        }
        assert(v.details@.take(v.details.len() as int) =~= v.details@);
    }

    /// Finds the first view with identifier `id`.
    fn find_view(&self, id: &str) -> (r: Option<usize>)
        ensures
            match r {
                Some(i) => index_of(view_ids(self.views@), id@) == i as int && i
                    < self.views@.len(),
                None => index_of(view_ids(self.views@), id@) == -1,
            },
    {
        let mut i: usize = 0;
        while i < self.views.len()
            invariant
                i <= self.views.len(),
                forall|j: int| 0 <= j < i ==> self.views@[j].id@ != id@,
            decreases self.views.len() - i,
        {
            if same_text(self.views[i].id.as_str(), id) {
                proof {
                    lemma_index_of_is(view_ids(self.views@), id@, i as int);
                }
                return Some(i);
            }
            i = i + 1;
        }
        proof {
            lemma_index_of_is(view_ids(self.views@), id@, -1);
        }
        None
    }

    /// A view was set: it replaces the first view with its identifier, or
    /// is added last (nothing changes when no view is given).
    pub fn handle_view_set(&mut self, v: ViewSet<F, S>)
        ensures
            final(self).id == old(self).id,
            final(self).name == old(self).name,
            final(self).set_of == old(self).set_of,
            final(self).active_view_id == old(self).active_view_id,
            final(self).views@ == match v.view {
                None => old(self).views@,
                Some(nv) => {
                    let k = index_of(view_ids(old(self).views@), v.view_id@);
                    if k == -1 {
                        old(self).views@.push(nv)
                    } else {
                        old(self).views@.update(k, nv)
                    }
                },
            },
    {
        match v.view {
            None => {},
            Some(new_view) => match self.find_view(v.view_id.as_str()) {
                Some(i) => {
                    self.views.set(i, new_view);
                },
                None => {
                    self.views.push(new_view);
                },
            },
        }
    }

    /// A view was deleted: every view with its identifier goes; when it was
    /// the active view, the first remaining view (or none) becomes active.
    pub fn handle_view_delete(&mut self, v: ViewDelete)
        ensures
            final(self).id == old(self).id,
            final(self).name == old(self).name,
            final(self).set_of == old(self).set_of,
            final(self).views@ == drop_views(old(self).views@, v.view_id@),
            old(self).active_view_id@ != v.view_id@ ==> final(self).active_view_id
                == old(self).active_view_id,
            old(self).active_view_id@ == v.view_id@ ==> final(self).active_view_id@ == if final(self).views@.len() == 0 {
                Seq::<char>::empty()
            } else {
                final(self).views@[0].id@
            },
    {
        let ghost orig = self.views@;
        let mut rest: Vec<DataView<F, S>> = Vec::new();
        std::mem::swap(&mut rest, &mut self.views);
        let ghost mut j: int = 0;
        assert(rest@ =~= orig.skip(0));
        assert(orig.take(0) =~= Seq::<DataView<F, S>>::empty());
        while rest.len() > 0
            invariant
                0 <= j <= orig.len(),
                rest@ == orig.skip(j),
                self.views@ == drop_views(orig.take(j), v.view_id@),
                self.id == old(self).id,
                self.name == old(self).name,
                self.set_of == old(self).set_of,
                self.active_view_id == old(self).active_view_id,
            decreases rest.len(),
        {
            assert(orig.take(j + 1).drop_last() =~= orig.take(j));
            assert(orig.take(j + 1).last() == orig[j]);
            let e = rest.remove(0);
            if !same_text(e.id.as_str(), v.view_id.as_str()) {
                self.views.push(e);
            }
            proof {
                assert(rest@ =~= orig.skip(j + 1));
                j = j + 1;
            }
        }
        assert(orig.take(j) =~= orig);
        if same_text(self.active_view_id.as_str(), v.view_id.as_str()) {
            self.active_view_id = if self.views.len() > 0 {
                self.views[0].id.clone()
            } else {
                String::new()
            };
        }
    }

    /// A view changed: the first view with its identifier gets the new name
    /// (when given) and the filter and sort changes, in order; an unknown view
    /// is left alone.
    pub fn handle_view_update(&mut self, v: ViewUpdate<F, S>)
        ensures
            final(self).id == old(self).id,
            final(self).name == old(self).name,
            final(self).set_of == old(self).set_of,
            final(self).active_view_id == old(self).active_view_id,
            view_updated(old(self).views@, final(self).views@, v),
    {
        let ViewUpdate { view_id, fields, filter, sort } = v;
        match self.find_view(view_id.as_str()) {
            None => {},
            Some(i) => {
                let mut view = self.views.remove(i);
                match fields {
                    Some(f) => {
                        view.name = f.name;
                    },
                    None => {},
                }
                apply_list_changes(&mut view.filters, filter);
                apply_list_changes(&mut view.sorts, sort);
                self.views.insert(i, view);
            },
        }
    }

    /// The views were reordered: each view goes to the first position of its
    /// identifier in the given order; views with the same position keep their
    /// order, and unlisted views go last.
    pub fn handle_view_order(&mut self, v: ViewOrder)
        ensures
            final(self).id == old(self).id,
            final(self).name == old(self).name,
            final(self).set_of == old(self).set_of,
            final(self).active_view_id == old(self).active_view_id,
            final(self).views@ == ordered_views(old(self).views@, texts(v.view_ids@)),
    {
        let ghost s = self.views@;
        let ghost ids = texts(v.view_ids@);
        let mut rest: Vec<DataView<F, S>> = Vec::new();
        std::mem::swap(&mut rest, &mut self.views);
        proof {
            lemma_beyond_zero(s, ids);
        }
        let n = v.view_ids.len();
        let mut k: usize = 0;
        while k < n
            invariant
                k <= n,
                n == ids.len(),
                ids == texts(v.view_ids@),
                rest@ == beyond(s, ids, k as int),
                self.views@ == ranked_below(s, ids, k as int),
                self.id == old(self).id,
                self.name == old(self).name,
                self.set_of == old(self).set_of,
                self.active_view_id == old(self).active_view_id,
            decreases n - k,
        {
            let ghost r0 = rest@;
            let ghost out0 = self.views@;
            let mut next: Vec<DataView<F, S>> = Vec::new();
            let ghost mut j: int = 0;
            assert(rest@ =~= r0.skip(0));
            assert(r0.take(0) =~= Seq::<DataView<F, S>>::empty());
            assert(out0 + with_rank(r0.take(0), ids, k as int) =~= out0);
            while rest.len() > 0
                invariant
                    0 <= j <= r0.len(),
                    rest@ == r0.skip(j),
                    self.views@ == out0 + with_rank(r0.take(j), ids, k as int),
                    next@ == not_rank(r0.take(j), ids, k as int),
                    ids == texts(v.view_ids@),
                    self.id == old(self).id,
                    self.name == old(self).name,
                    self.set_of == old(self).set_of,
                    self.active_view_id == old(self).active_view_id,
                decreases rest.len(),
            {
                assert(r0.take(j + 1).drop_last() =~= r0.take(j));
                assert(r0.take(j + 1).last() == r0[j]);
                let e = rest.remove(0);
                let rank = crate::text::find_text(&v.view_ids, e.id.as_str());
                let is_k = match rank {
                    Some(q) => q == k,
                    None => false,
                };
                if is_k {
                    let ghost before = self.views@;
                    self.views.push(e);
                    assert(self.views@ =~= out0 + with_rank(r0.take(j + 1), ids, k as int));
                } else {
                    next.push(e);
                }
                proof {
                    assert(rest@ =~= r0.skip(j + 1));
                    j = j + 1;
                }
            }
            assert(r0.take(j) =~= r0);
            proof {
                lemma_beyond_split(s, ids, k as int);
                assert(ranked_below(s, ids, k + 1) == ranked_below(s, ids, k as int) + with_rank(
                    s,
                    ids,
                    k as int,
                ));
            }
            rest = next;
            k = k + 1;
        }
        proof {
            lemma_beyond_all(s, ids);
            lemma_ranked(s, ids, n as int);
            assert(ranked_from(s, ids, n as int) == with_rank(s, ids, -1));
        }
        let ghost before = self.views@;
        self.views.append(&mut rest);
    }

    /// Records the set whose object view the engine sent on opening it: its
    /// name and source types from its own details, and the views of its
    /// `dataview` block. Nothing changes when there is no object view, no
    /// such block, or no data view in it.
    pub fn handle_open(&mut self, object_id: &str, view: Option<ObjectViewData<F, S>>) -> (r: Result<(), OpenError>)
        ensures
            match view {
                None => r == Err::<(), OpenError>(OpenError::MissingObjectView),
                Some(ov) => {
                    let k = block_index(ov.blocks@, DATAVIEW_BLOCK_ID@);
                    if k == -1 {
                        r == Err::<(), OpenError>(OpenError::NoViews)
                    } else if ov.blocks@[k].dataview is None {
                        r == Err::<(), OpenError>(OpenError::NoDataview)
                    } else {
                        r is Ok
                    }
                },
            },
            r is Err ==> *final(self) == *old(self),
            r is Ok ==> (view matches Some(ov) && {
                let dv = ov.blocks@[block_index(ov.blocks@, DATAVIEW_BLOCK_ID@)].dataview.unwrap();
                let d = own_details(ov.details@);
                &&& final(self).id@ == object_id@
                &&& final(self).name@ == match d {
                    Some(f) => text_of(f@.get("name"@)),
                    None => Seq::<char>::empty(),
                }
                &&& texts(final(self).set_of@) == match d {
                    Some(f) => list_texts(f@.get("setOf"@)),
                    None => Seq::<Seq<char>>::empty(),
                }
                &&& final(self).views@ == dv.views@
                &&& final(self).active_view_id@ == if dv.active_view@.len() != 0 {
                    dv.active_view@
                } else if dv.views@.len() == 0 {
                    Seq::<char>::empty()
                } else {
                    dv.views@[0].id@
                }
            }),
    {
        let ObjectViewData { details, mut blocks } = match view {
            None => return Err(OpenError::MissingObjectView),
            Some(v) => v,
        };
        let ghost bs = blocks@;
        let mut k: usize = 0;
        while k < blocks.len()
            invariant
                bs == blocks@,
                k <= blocks.len(),
                forall|j: int| 0 <= j < k ==> (#[trigger] blocks@[j]).id@ != DATAVIEW_BLOCK_ID@,
            ensures
                bs == blocks@,
                k <= blocks.len(),
                forall|j: int| 0 <= j < k ==> (#[trigger] blocks@[j]).id@ != DATAVIEW_BLOCK_ID@,
                k < blocks.len() ==> blocks@[k as int].id@ == DATAVIEW_BLOCK_ID@,
            decreases blocks.len() - k,
        {
            if same_text(blocks[k].id.as_str(), DATAVIEW_BLOCK_ID) {
                break;
            }
            k = k + 1;
        }
        proof {
            let ids = bs.map_values(|b: Block<F, S>| b.id@);
            if k < blocks.len() {
                lemma_index_of_is(ids, DATAVIEW_BLOCK_ID@, k as int);
            } else {
                lemma_index_of_is(ids, DATAVIEW_BLOCK_ID@, -1);
            }
        }
        if k == blocks.len() {
            return Err(OpenError::NoViews);
        }
        let block = blocks.remove(k);
        let content = match block.dataview {
            None => return Err(OpenError::NoDataview),
            Some(c) => c,
        };
        let own: Option<&crate::fields::Fields> = if details.len() > 0 {
            match &details[0] {
                Some(f) => Some(f),
                None => None,
            }
        } else {
            None
        };
        self.load_opened(object_id, own, content.views, content.active_view);
        Ok(())
    }

    /// Records the set that was just opened: its identifier, name, source
    /// types and views; the active view is the one the engine names, or the
    /// first view when it names none.
    pub fn load_opened(
        &mut self,
        object_id: &str,
        details: Option<&crate::fields::Fields>,
        views: Vec<DataView<F, S>>,
        active_view: String,
    )
        ensures
            final(self).id@ == object_id@,
            final(self).name@ == match details {
                Some(f) => text_of(f@.get("name"@)),
                None => Seq::<char>::empty(),
            },
            texts(final(self).set_of@) == match details {
                Some(f) => list_texts(f@.get("setOf"@)),
                None => Seq::<Seq<char>>::empty(),
            },
            final(self).views@ == views@,
            final(self).active_view_id@ == if active_view@.len() != 0 {
                active_view@
            } else if views@.len() == 0 {
                Seq::<char>::empty()
            } else {
                views@[0].id@
            },
    {
        match details {
            Some(f) => {
                self.name = extract_string(f.get("name"));
                self.set_of = extract_list_strings(f.get("setOf"));
            },
            None => {
                self.name = String::new();
                self.set_of = Vec::new();
                assert(texts(self.set_of@) =~= Seq::<Seq<char>>::empty());
            },
        }
        self.id = object_id.to_owned();
        self.active_view_id = if active_view.unicode_len() != 0 {
            active_view
        } else if views.len() > 0 {
            views[0].id.clone()
        } else {
            String::new()
        };
        self.views = views;
    }
}

/// `drop_ids` distributes over concatenation.
proof fn lemma_drop_ids_concat<T>(a: Seq<Keyed<T>>, b: Seq<Keyed<T>>, ids: Seq<Seq<char>>)
    ensures
        drop_ids(a + b, ids) == drop_ids(a, ids) + drop_ids(b, ids),
    decreases b.len(),
{
    if b.len() == 0 {
        assert(a + b =~= a);
        assert(drop_ids(a, ids) + drop_ids(b, ids) =~= drop_ids(a, ids));
    } else {
        lemma_drop_ids_concat(a, b.drop_last(), ids);
        assert((a + b).drop_last() =~= a + b.drop_last());
        if !ids.contains(b.last().id@) {
            assert(drop_ids(a, ids) + drop_ids(b.drop_last(), ids).push(b.last()) =~= (drop_ids(
                a,
                ids,
            ) + drop_ids(b.drop_last(), ids)).push(b.last()));
        }
    }
}

/// Dropping identifiers that no item has changes nothing.
proof fn lemma_drop_ids_none<T>(s: Seq<Keyed<T>>, ids: Seq<Seq<char>>)
    requires
        forall|i: int| 0 <= i < s.len() ==> !ids.contains(#[trigger] s[i].id@),
    ensures
        drop_ids(s, ids) == s,
    decreases s.len(),
{
    if s.len() > 0 {
        let init = s.drop_last();
        assert forall|i: int| 0 <= i < init.len() implies !ids.contains(#[trigger] init[i].id@) by {
            assert(init[i] == s[i]);
        }
        lemma_drop_ids_none(init, ids);
        assert(!ids.contains(s[s.len() - 1].id@));
        assert(s.drop_last().push(s.last()) =~= s);
    }
}

/// Dropping the identifiers of all items leaves nothing.
proof fn lemma_drop_own_ids<T>(s: Seq<Keyed<T>>, ids: Seq<Seq<char>>)
    requires
        forall|i: int| 0 <= i < s.len() ==> ids.contains(#[trigger] s[i].id@),
    ensures
        drop_ids(s, ids) == Seq::<Keyed<T>>::empty(),
    decreases s.len(),
{
    if s.len() > 0 {
        let init = s.drop_last();
        assert forall|i: int| 0 <= i < init.len() implies ids.contains(#[trigger] init[i].id@) by {
            assert(init[i] == s[i]);
        }
        lemma_drop_own_ids(init, ids);
        assert(ids.contains(s[s.len() - 1].id@));
    }
}

/// Law: adding items whose identifiers the list does not hold, then removing
/// those identifiers, gives the list back.
pub proof fn law_add_then_remove_items<T>(s: Seq<Keyed<T>>, after: Seq<char>, added: Seq<Keyed<T>>)
    requires
        forall|i: int| 0 <= i < s.len() ==> !keys(added).contains(#[trigger] s[i].id@),
    ensures
        ({
            let pos = add_position(keys(s), after);
            drop_ids(s.take(pos) + added + s.skip(pos), keys(added)) == s
        }),
{
    let pos = add_position(keys(s), after);
    lemma_index_of(keys(s), after);
    let ids = keys(added);
    let a = s.take(pos);
    let b = s.skip(pos);
    lemma_drop_ids_concat(a + added, b, ids);
    lemma_drop_ids_concat(a, added, ids);
    assert forall|i: int| 0 <= i < added.len() implies ids.contains(#[trigger] added[i].id@) by {
        assert(ids[i] == added[i].id@);
    }
    lemma_drop_own_ids(added, ids);
    assert forall|i: int| 0 <= i < a.len() implies !ids.contains(#[trigger] a[i].id@) by {
        assert(a[i] == s[i]);
    }
    assert forall|i: int| 0 <= i < b.len() implies !ids.contains(#[trigger] b[i].id@) by {
        assert(b[i] == s[pos + i]);
    }
    lemma_drop_ids_none(a, ids);
    lemma_drop_ids_none(b, ids);
    assert(a + Seq::<Keyed<T>>::empty() + b =~= s);
}

/// Law: an update keeps the number of items.
pub proof fn law_update_keeps_length<T>(s: Seq<Keyed<T>>, id: String, item: Option<Keyed<T>>)
    ensures
        apply_change(s, ListChange::Update { id, item }).len() == s.len(),
{
    lemma_index_of(keys(s), id@);
}

proof fn lemma_rank_partition<F, S>(t: Seq<DataView<F, S>>, ids: Seq<Seq<char>>, k: int)
    ensures
        with_rank(t, ids, k).to_multiset().add(not_rank(t, ids, k).to_multiset())
            == t.to_multiset(),
    decreases t.len(),
{
    broadcast use vstd::seq_lib::group_to_multiset_ensures;

    if t.len() == 0 {
        assert(with_rank(t, ids, k).to_multiset() =~= Multiset::empty());
        assert(t.to_multiset() =~= Multiset::empty());
        assert(not_rank(t, ids, k).to_multiset() =~= Multiset::empty());
        assert(with_rank(t, ids, k).to_multiset().add(not_rank(t, ids, k).to_multiset())
            =~= t.to_multiset());
    } else {
        lemma_rank_partition(t.drop_last(), ids, k);
        assert(t.drop_last().push(t.last()) =~= t);
        assert(with_rank(t, ids, k).to_multiset().add(not_rank(t, ids, k).to_multiset())
            =~= t.to_multiset());
    }
}

proof fn lemma_ranked_from_multiset<F, S>(s: Seq<DataView<F, S>>, ids: Seq<Seq<char>>, k: int)
    requires
        0 <= k <= ids.len(),
    ensures
        ranked_from(s, ids, k).to_multiset() == beyond(s, ids, k).to_multiset(),
    decreases ids.len() - k,
{
    broadcast use vstd::seq_lib::lemma_multiset_commutative;

    if k == ids.len() {
        lemma_beyond_all(s, ids);
    } else {
        lemma_ranked_from_multiset(s, ids, k + 1);
        lemma_beyond_split(s, ids, k);
        lemma_rank_partition(beyond(s, ids, k), ids, k);
    }
}

/// Law: reordering views loses no view and adds none.
pub proof fn law_view_order_keeps_views<F, S>(s: Seq<DataView<F, S>>, ids: Seq<Seq<char>>)
    ensures
        ordered_views(s, ids).to_multiset() == s.to_multiset(),
{
    lemma_ranked_from_multiset(s, ids, 0);
    lemma_beyond_zero(s, ids);
}


/// The items left and the items taken out by `extract_moved` are, together,
/// the items there were.
proof fn lemma_extract_moved_multiset<T>(s: Seq<Keyed<T>>, ids: Seq<Seq<char>>)
    ensures
        extract_moved(s, ids).0.to_multiset().add(extract_moved(s, ids).1.to_multiset())
            == s.to_multiset(),
    decreases ids.len(),
{
    broadcast use vstd::seq_lib::group_to_multiset_ensures;

    if ids.len() == 0 {
        assert(Seq::<Keyed<T>>::empty().to_multiset() =~= Multiset::empty());
        assert(s.to_multiset().add(Multiset::empty()) =~= s.to_multiset());
    } else {
        lemma_extract_moved_multiset(s, ids.drop_last());
        let (rest, moved) = extract_moved(s, ids.drop_last());
        let k = index_of(keys(rest), ids.last());
        lemma_index_of(keys(rest), ids.last());
        if k != -1 {
            let x = rest[k];
            assert(rest.remove(k).to_multiset() == rest.to_multiset().remove(x));
            assert(moved.push(x).to_multiset() =~= moved.to_multiset().insert(x));
            assert(rest.to_multiset().count(x) > 0) by {
                assert(rest.contains(x));
            }
            assert(rest.to_multiset().remove(x).add(moved.to_multiset().insert(x))
                =~= rest.to_multiset().add(moved.to_multiset()));
        }
    }
}

/// Law: moving filters or sorts loses none and adds none.
pub proof fn law_move_keeps_items<T>(s: Seq<Keyed<T>>, after_id: String, ids: Vec<String>)
    ensures
        apply_change(s, ListChange::Move { after_id, ids }).to_multiset() == s.to_multiset(),
{
    broadcast use vstd::seq_lib::lemma_multiset_commutative;

    let (rest, moved) = extract_moved(s, texts(ids@));
    lemma_extract_moved_multiset(s, texts(ids@));
    let pos = add_position(keys(rest), after_id@);
    lemma_index_of(keys(rest), after_id@);
    assert(rest.take(pos) + rest.skip(pos) =~= rest);
    let r = rest.take(pos) + moved + rest.skip(pos);
    assert(r.to_multiset() =~= rest.take(pos).to_multiset().add(moved.to_multiset()).add(
        rest.skip(pos).to_multiset(),
    ));
    assert(rest.to_multiset() =~= rest.take(pos).to_multiset().add(rest.skip(pos).to_multiset()));
}

/// Law: after a view is deleted, no view has its identifier.
pub proof fn law_view_delete_removes<F, S>(s: Seq<DataView<F, S>>, id: Seq<char>)
    ensures
        forall|i: int|
            0 <= i < drop_views(s, id).len() ==> (#[trigger] drop_views(s, id)[i]).id@ != id,
    decreases s.len(),
{
    if s.len() > 0 {
        law_view_delete_removes(s.drop_last(), id);
        let r = drop_views(s.drop_last(), id);
        if s.last().id@ != id {
            assert forall|i: int| 0 <= i < r.push(s.last()).len() implies (#[trigger] r.push(
                s.last(),
            )[i]).id@ != id by {
                if i < r.len() {
                    assert(r.push(s.last())[i] == r[i]);
                }
            }
        }
    }
}

/// Law: adding items puts them, in their order, right after the first item
/// whose identifier is `after`; when `after` is empty or no item has it, they
/// go first. The other items keep their order.
pub proof fn law_add_places_items<T>(s: Seq<Keyed<T>>, after_id: String, items: Vec<Keyed<T>>)
    ensures
        ({
            let r = apply_change(s, ListChange::Add { after_id, items });
            let n = items@.len();
            &&& r.len() == s.len() + n
            &&& (after_id@.len() == 0 || (forall|q: int| 0 <= q < s.len() ==> s[q].id@ != after_id@))
                ==> (forall|k: int| 0 <= k < n ==> #[trigger] r[k] == items@[k]) && (forall|k: int|
                0 <= k < s.len() ==> #[trigger] r[n + k] == s[k])
            &&& forall|q: int|
                0 <= q < s.len() && after_id@.len() != 0 && #[trigger] s[q].id@ == after_id@ && (forall|
                    p: int,
                | 0 <= p < q ==> s[p].id@ != after_id@) ==> {
                    &&& forall|k: int| 0 <= k <= q ==> #[trigger] r[k] == s[k]
                    &&& forall|k: int| 0 <= k < n ==> #[trigger] r[q + 1 + k] == items@[k]
                    &&& forall|k: int| q < k < s.len() ==> #[trigger] r[n + k] == s[k]
                }
        }),
{
    lemma_index_of(keys(s), after_id@);
    let ks = keys(s);
    assert forall|q: int|
        0 <= q < s.len() && after_id@.len() != 0 && #[trigger] s[q].id@ == after_id@ && (forall|p: int|
            0 <= p < q ==> s[p].id@ != after_id@) implies index_of(ks, after_id@) == q by {
        lemma_index_of_is(ks, after_id@, q);
    }
    if forall|q: int| 0 <= q < s.len() ==> s[q].id@ != after_id@ {
        assert(!ks.contains(after_id@)) by {
            if ks.contains(after_id@) {
                let q = choose|q: int| 0 <= q < ks.len() && ks[q] == after_id@;
                assert(s[q].id@ == after_id@);
            }
        }
    }
}

/// Law: removing keeps exactly the items whose identifier is not listed, in
/// their order.
pub proof fn law_remove_keeps_unlisted<T>(s: Seq<Keyed<T>>, ids: Vec<String>)
    ensures
        apply_change(s, ListChange::Remove { ids }) == s.filter(
            |e: Keyed<T>| !texts(ids@).contains(e.id@),
        ),
{
    lemma_drop_ids_filter(s, texts(ids@));
}

proof fn lemma_drop_ids_filter<T>(s: Seq<Keyed<T>>, ids: Seq<Seq<char>>)
    ensures
        drop_ids(s, ids) == s.filter(|e: Keyed<T>| !ids.contains(e.id@)),
    decreases s.len(),
{
    reveal(Seq::filter);
    if s.len() > 0 {
        lemma_drop_ids_filter(s.drop_last(), ids);
    }
}

/// Law: an update replaces the first item with its identifier by the given
/// item and keeps every other item; without such an item, or without a new
/// item, nothing changes.
pub proof fn law_update_replaces_first<T>(s: Seq<Keyed<T>>, id: String, item: Option<Keyed<T>>)
    ensures
        ({
            let r = apply_change(s, ListChange::Update { id, item });
            &&& r.len() == s.len()
            &&& forall|q: int|
                0 <= q < s.len() && #[trigger] s[q].id@ == id@ && (forall|p: int|
                    0 <= p < q ==> s[p].id@ != id@) && item is Some ==> r[q] == item.unwrap() && (
                forall|k: int| 0 <= k < s.len() && k != q ==> r[k] == s[k])
            &&& ((forall|q: int| 0 <= q < s.len() ==> s[q].id@ != id@) || item is None) ==> r == s
        }),
{
    let ks = keys(s);
    lemma_index_of(ks, id@);
    assert forall|q: int|
        0 <= q < s.len() && #[trigger] s[q].id@ == id@ && (forall|p: int|
            0 <= p < q ==> s[p].id@ != id@) implies index_of(ks, id@) == q by {
        lemma_index_of_is(ks, id@, q);
    }
    if forall|q: int| 0 <= q < s.len() ==> s[q].id@ != id@ {
        lemma_index_of_is(ks, id@, -1);
    }
}

/// Law: deleting a view keeps exactly the views with another identifier, in
/// their order.
pub proof fn law_view_delete_keeps_others<F, S>(s: Seq<DataView<F, S>>, id: Seq<char>)
    ensures
        drop_views(s, id) == s.filter(|v: DataView<F, S>| v.id@ != id),
    decreases s.len(),
{
    reveal(Seq::filter);
    if s.len() > 0 {
        law_view_delete_keeps_others(s.drop_last(), id);
    }
}

/// The place by which a view is ordered: the first position of its
/// identifier in `ids`, after all of them when it is not listed.
pub open spec fn order_key<F, S>(ids: Seq<Seq<char>>, v: DataView<F, S>) -> int {
    if index_of(ids, v.id@) == -1 {
        ids.len() as int
    } else {
        index_of(ids, v.id@)
    }
}

proof fn lemma_with_rank_rank<F, S>(s: Seq<DataView<F, S>>, ids: Seq<Seq<char>>, k: int)
    ensures
        forall|i: int| 0 <= i < with_rank(s, ids, k).len() ==> view_rank(ids, #[trigger] with_rank(s, ids, k)[i]) == k,
    decreases s.len(),
{
    if s.len() > 0 {
        lemma_with_rank_rank(s.drop_last(), ids, k);
        let r = with_rank(s.drop_last(), ids, k);
        if view_rank(ids, s.last()) == k {
            assert forall|i: int| 0 <= i < r.push(s.last()).len() implies view_rank(ids, #[trigger] r.push(s.last())[i]) == k by {
                if i < r.len() {
                    assert(r.push(s.last())[i] == r[i]);
                }
            }
        }
    }
}

proof fn lemma_ranked_from_sorted<F, S>(s: Seq<DataView<F, S>>, ids: Seq<Seq<char>>, k: int)
    requires
        0 <= k <= ids.len(),
    ensures
        forall|i: int| 0 <= i < ranked_from(s, ids, k).len() ==> order_key(ids, #[trigger] ranked_from(s, ids, k)[i]) >= k,
        forall|i: int, j: int|
            0 <= i < j < ranked_from(s, ids, k).len() ==> order_key(ids, #[trigger] ranked_from(s, ids, k)[i])
                <= order_key(ids, #[trigger] ranked_from(s, ids, k)[j]),
    decreases ids.len() - k,
{
    if k == ids.len() {
        let w = with_rank(s, ids, -1);
        lemma_with_rank_rank(s, ids, -1);
        assert forall|i: int| 0 <= i < w.len() implies order_key(ids, #[trigger] w[i]) == ids.len() by {
            assert(view_rank(ids, w[i]) == -1);
        }
    } else {
        lemma_ranked_from_sorted(s, ids, k + 1);
        lemma_with_rank_rank(s, ids, k);
        let w = with_rank(s, ids, k);
        let t = ranked_from(s, ids, k + 1);
        let r = w + t;
        assert(ranked_from(s, ids, k) == r);
        assert forall|i: int| 0 <= i < w.len() implies order_key(ids, #[trigger] w[i]) == k by {
            assert(view_rank(ids, w[i]) == k);
        }
        assert forall|i: int| 0 <= i < r.len() implies order_key(ids, #[trigger] r[i]) >= k by {
            if i < w.len() {
                assert(r[i] == w[i]);
            } else {
                assert(r[i] == t[i - w.len()]);
            }
        }
        assert forall|i: int, j: int|
            0 <= i < j < r.len() implies order_key(ids, #[trigger] r[i]) <= order_key(ids, #[trigger] r[j]) by {
            if j < w.len() {
                assert(r[i] == w[i]);
                assert(r[j] == w[j]);
            } else if i < w.len() {
                assert(r[i] == w[i]);
                assert(r[j] == t[j - w.len()]);
            } else {
                assert(r[i] == t[i - w.len()]);
                assert(r[j] == t[j - w.len()]);
            }
        }
    }
}

/// Law: after reordering, the views come by the first position of their
/// identifier in the given order, unlisted views last.
pub proof fn law_view_order_sorted<F, S>(s: Seq<DataView<F, S>>, ids: Seq<Seq<char>>)
    ensures
        forall|i: int, j: int|
            0 <= i < j < ordered_views(s, ids).len() ==> order_key(ids, #[trigger] ordered_views(s, ids)[i])
                <= order_key(ids, #[trigger] ordered_views(s, ids)[j]),
{
    lemma_ranked_from_sorted(s, ids, 0);
}

proof fn lemma_with_rank_is_filter<F, S>(s: Seq<DataView<F, S>>, ids: Seq<Seq<char>>, k: int)
    ensures
        with_rank(s, ids, k) == s.filter(|v: DataView<F, S>| view_rank(ids, v) == k),
    decreases s.len(),
{
    reveal(Seq::filter);
    if s.len() > 0 {
        lemma_with_rank_is_filter(s.drop_last(), ids, k);
    }
}

proof fn lemma_filter_all<A>(s: Seq<A>, p: spec_fn(A) -> bool)
    requires
        forall|i: int| 0 <= i < s.len() ==> p(#[trigger] s[i]),
    ensures
        s.filter(p) == s,
    decreases s.len(),
{
    reveal(Seq::filter);
    if s.len() > 0 {
        let init = s.drop_last();
        assert forall|i: int| 0 <= i < init.len() implies p(#[trigger] init[i]) by {
            assert(init[i] == s[i]);
        }
        lemma_filter_all(init, p);
        assert(p(s[s.len() - 1]));
        assert(init.push(s.last()) =~= s);
    }
}

proof fn lemma_filter_none<A>(s: Seq<A>, p: spec_fn(A) -> bool)
    requires
        forall|i: int| 0 <= i < s.len() ==> !p(#[trigger] s[i]),
    ensures
        s.filter(p) == Seq::<A>::empty(),
    decreases s.len(),
{
    reveal(Seq::filter);
    if s.len() > 0 {
        let init = s.drop_last();
        assert forall|i: int| 0 <= i < init.len() implies !p(#[trigger] init[i]) by {
            assert(init[i] == s[i]);
        }
        lemma_filter_none(init, p);
        assert(!p(s[s.len() - 1]));
    }
}

proof fn lemma_ranked_from_stable<F, S>(s: Seq<DataView<F, S>>, ids: Seq<Seq<char>>, k: int, k0: int)
    requires
        0 <= k <= ids.len(),
        k <= k0 <= ids.len(),
    ensures
        ranked_from(s, ids, k).filter(|v: DataView<F, S>| order_key(ids, v) == k0) == s.filter(
            |v: DataView<F, S>| order_key(ids, v) == k0,
        ),
    decreases ids.len() - k,
{
    let pk = |v: DataView<F, S>| order_key(ids, v) == k0;
    assert forall|v: DataView<F, S>| #[trigger] pk(v) == (view_rank(ids, v) == (if k0 == ids.len() {
        -1
    } else {
        k0
    })) by {
        lemma_index_of(ids, v.id@);
    }
    let rk = if k0 == ids.len() { -1 } else { k0 };
    lemma_with_rank_is_filter(s, ids, rk);
    assert(s.filter(pk) =~= s.filter(|v: DataView<F, S>| view_rank(ids, v) == rk)) by {
        assert(pk =~= (|v: DataView<F, S>| view_rank(ids, v) == rk));
    }
    lemma_with_rank_rank(s, ids, rk);
    let w0 = with_rank(s, ids, rk);
    if k == ids.len() {
        assert(k0 == ids.len());
        lemma_filter_all(w0, pk);
    } else {
        let w = with_rank(s, ids, k);
        let t = ranked_from(s, ids, k + 1);
        assert(ranked_from(s, ids, k) == w + t);
        Seq::filter_distributes_over_add(w, t, pk);
        lemma_with_rank_rank(s, ids, k);
        if k0 == k {
            lemma_filter_all(w, pk);
            lemma_ranked_from_sorted(s, ids, k + 1);
            assert forall|i: int| 0 <= i < t.len() implies !pk(#[trigger] t[i]) by {
                assert(order_key(ids, t[i]) >= k + 1);
            }
            lemma_filter_none(t, pk);
            assert(w + Seq::<DataView<F, S>>::empty() =~= w);
        } else {
            assert forall|i: int| 0 <= i < w.len() implies !pk(#[trigger] w[i]) by {
                assert(view_rank(ids, w[i]) == k);
            }
            lemma_filter_none(w, pk);
            lemma_ranked_from_stable(s, ids, k + 1, k0);
            assert(Seq::<DataView<F, S>>::empty() + t.filter(pk) =~= t.filter(pk));
        }
    }
}

/// Law: reordering keeps the relative order of views with the same place:
/// the views with any one place come in the order they had before.
pub proof fn law_view_order_stable<F, S>(s: Seq<DataView<F, S>>, ids: Seq<Seq<char>>, k0: int)
    requires
        0 <= k0 <= ids.len(),
    ensures
        ordered_views(s, ids).filter(|v: DataView<F, S>| order_key(ids, v) == k0) == s.filter(
            |v: DataView<F, S>| order_key(ids, v) == k0,
        ),
{
    lemma_ranked_from_stable(s, ids, 0, k0);
}

} // verus!
