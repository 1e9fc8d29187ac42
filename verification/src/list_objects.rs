//! The subscription to the objects of a list (a set or collection).
use vstd::prelude::*;
use crate::events::{AmendEntry, DetailsAmend, DetailsSet, SubscriptionAdd, SubscriptionRemove};
use crate::fields::{extract_string, fields_of, text_of, FieldValue, Fields};
use crate::id_map::IdMap;
use crate::ordering::{insert_ordered, inserted_in_order, retain_other, without};
use crate::text::{has_prefix, same_text, seq_has_prefix, texts};

verus! {

/// The prefix of the identifiers of list subscriptions.
pub const LIST_SUB_PREFIX: &'static str = "list";

/// An object of a list: its name and all its detail fields.
#[derive(PartialEq, Debug)]
pub struct ObjectDetails {
    pub id: String,
    pub name: String,
    pub fields: Fields,
}

/// The texts and fields of an object's details.
pub struct ObjectDetailsView {
    pub id: Seq<char>,
    pub name: Seq<char>,
    pub fields: Map<Seq<char>, FieldValue>,
}

impl View for ObjectDetails {
    type V = ObjectDetailsView;

    open spec fn view(&self) -> ObjectDetailsView {
        ObjectDetailsView { id: self.id@, name: self.name@, fields: self.fields@ }
    }
}

/// The details of an object read from its fields.
pub open spec fn object_details_from(id: Seq<char>, f: Map<Seq<char>, FieldValue>) -> ObjectDetailsView {
    ObjectDetailsView { id, name: text_of(f.get("name"@)), fields: f }
}

/// Builds the details of an object from its fields, which it keeps.
pub fn parse_object_details(object_id: &str, fields: Fields) -> (r: ObjectDetails)
    ensures
        r@ == object_details_from(object_id@, fields@),
{
    let name = extract_string(fields.get("name"));
    ObjectDetails { id: object_id.to_owned(), name, fields }
}

/// The value an amend entry carries: a missing value is a value without a
/// kind.
pub open spec fn entry_value(v: Option<FieldValue>) -> FieldValue {
    match v {
        Some(x) => x,
        None => FieldValue::Empty,
    }
}

/// The details of an object after the amend entries, in order, were applied:
/// each entry sets its field, and `name` also sets the name.
pub open spec fn amend_object(d: ObjectDetailsView, es: Seq<AmendEntry>) -> ObjectDetailsView
    decreases es.len(),
{
    if es.len() == 0 {
        d
    } else {
        let p = amend_object(d, es.drop_last());
        let e = es.last();
        let val = entry_value(e.value);
        let named = if e.key@ == "name"@ {
            ObjectDetailsView { name: text_of(Some(val)), ..p }
        } else {
            p
        };
        ObjectDetailsView { fields: named.fields.insert(e.key@, val), ..named }
    }
}

/// Law: after an amend, the name of an object is the text of the last
/// `name` entry (empty for an entry without a value), or stays when no entry
/// has that key; the identifier never changes.
pub proof fn law_amend_object_name(d: ObjectDetailsView, es: Seq<AmendEntry>)
    ensures
        amend_object(d, es).id == d.id,
        forall|i: int|
            0 <= i < es.len() && #[trigger] es[i].key@ == "name"@ && (forall|j: int|
                i < j < es.len() ==> es[j].key@ != "name"@) ==> amend_object(d, es).name == text_of(Some(entry_value(es[i].value))),
        (forall|i: int| 0 <= i < es.len() ==> es[i].key@ != "name"@) ==> amend_object(d, es).name == d.name,
    decreases es.len(),
{
    reveal_strlit("name");
    if es.len() > 0 {
        let init = es.drop_last();
        law_amend_object_name(d, init);
        let e = es.last();
        if e.key@ == "name"@ {
            assert forall|i: int|
                0 <= i < es.len() && #[trigger] es[i].key@ == "name"@ && (forall|j: int|
                    i < j < es.len() ==> es[j].key@ != "name"@) implies i == es.len() - 1 by {
                if i < es.len() - 1 {
                    assert(es[es.len() - 1].key@ != "name"@);
                }
            }
        } else {
            assert forall|i: int|
                0 <= i < es.len() && #[trigger] es[i].key@ == "name"@ && (forall|j: int|
                    i < j < es.len() ==> es[j].key@ != "name"@) implies amend_object(d, es).name == text_of(Some(entry_value(es[i].value))) by {
                assert(i < es.len() - 1);
                assert(init[i] == es[i]);
                assert forall|j: int| i < j < init.len() implies init[j].key@ != "name"@ by {
                    assert(init[j] == es[j]);
                }
            }
            if forall|i: int| 0 <= i < es.len() ==> es[i].key@ != "name"@ {
                assert forall|i: int| 0 <= i < init.len() implies init[i].key@ != "name"@ by {
                    assert(init[i] == es[i]);
                }
            }
        }
    }
}

/// Law: after an amend, each field named by some entry holds the value of
/// the last entry with its key (a value without a kind for an entry without
/// a value); every other field stays as it was.
pub proof fn law_amend_object_field(d: ObjectDetailsView, es: Seq<AmendEntry>, key: Seq<char>)
    ensures
        forall|i: int|
            0 <= i < es.len() && #[trigger] es[i].key@ == key && (forall|j: int|
                i < j < es.len() ==> es[j].key@ != key) ==> amend_object(d, es).fields.contains_key(key)
                && amend_object(d, es).fields[key] == entry_value(es[i].value),
        (forall|i: int| 0 <= i < es.len() ==> es[i].key@ != key) ==> (amend_object(
            d,
            es,
        ).fields.contains_key(key) == d.fields.contains_key(key) && amend_object(d, es).fields[key]
            == d.fields[key]),
    decreases es.len(),
{
    if es.len() > 0 {
        let init = es.drop_last();
        law_amend_object_field(d, init, key);
        let e = es.last();
        if e.key@ == key {
            assert forall|i: int|
                0 <= i < es.len() && #[trigger] es[i].key@ == key && (forall|j: int|
                    i < j < es.len() ==> es[j].key@ != key) implies i == es.len() - 1 by {
                if i < es.len() - 1 {
                    assert(es[es.len() - 1].key@ != key);
                }
            }
        } else {
            assert forall|i: int|
                0 <= i < es.len() && #[trigger] es[i].key@ == key && (forall|j: int|
                    i < j < es.len() ==> es[j].key@ != key) implies amend_object(d, es).fields.contains_key(key)
                && amend_object(d, es).fields[key] == entry_value(es[i].value) by {
                assert(i < es.len() - 1);
                assert(init[i] == es[i]);
                assert forall|j: int| i < j < init.len() implies init[j].key@ != key by {
                    assert(init[j] == es[j]);
                }
            }
            if forall|i: int| 0 <= i < es.len() ==> es[i].key@ != key {
                assert forall|i: int| 0 <= i < init.len() implies init[i].key@ != key by {
                    assert(init[i] == es[i]);
                }
            }
        }
    }
}

/// The views of a map of object details.
pub open spec fn object_views(m: Map<Seq<char>, ObjectDetails>) -> Map<Seq<char>, ObjectDetailsView> {
    m.map_values(|d: ObjectDetails| d@)
}

/// The objects of a list, in subscription order, with their details.
#[derive(PartialEq, Debug)]
pub struct ListObjectsState {
    pub order: Vec<String>,
    pub details: IdMap<ObjectDetails>,
}

impl ListObjectsState {
    /// An empty state.
    pub fn new() -> (r: Self)
        ensures
            r.order@.len() == 0,
            r.details@ == Map::<Seq<char>, ObjectDetails>::empty(),
    {
        ListObjectsState { order: Vec::new(), details: IdMap::new() }
    }

    /// Whether a subscription identifier is a list subscription.
    pub fn matches_sub_id(sub_id: &str) -> (r: bool)
        ensures
            r == seq_has_prefix(sub_id@, LIST_SUB_PREFIX@),
    {
        has_prefix(sub_id, LIST_SUB_PREFIX)
    }

    /// The identifier of the subscription to a list.
    pub fn sub_id(list_id: &str) -> (r: String)
        ensures
            r@ == LIST_SUB_PREFIX@ + "-"@ + list_id@,
    {
        let mut s = LIST_SUB_PREFIX.to_owned();
        s.append("-");
        s.append(list_id);
        s
    }

    /// An object entered the subscription.
    pub fn handle_add(&mut self, v: SubscriptionAdd)
        ensures
            texts(final(self).order@) == inserted_in_order(texts(old(self).order@), v.id@, v.after_id@),
            final(self).details@ == old(self).details@,
    {
        insert_ordered(&mut self.order, v.id, v.after_id.as_str());
    }

    /// An object left the subscription.
    pub fn handle_remove(&mut self, v: SubscriptionRemove)
        ensures
            texts(final(self).order@) == without(texts(old(self).order@), v.id@),
            final(self).details@ == old(self).details@.remove(v.id@),
    {
        retain_other(&mut self.order, v.id.as_str());
        self.details.remove(v.id.as_str());
    }

    /// All details of an object were sent.
    pub fn handle_set(&mut self, v: DetailsSet)
        ensures
            texts(final(self).order@) == texts(old(self).order@),
            object_views(final(self).details@) == object_views(old(self).details@).insert(
                v.id@,
                object_details_from(v.id@, fields_of(v.details)),
            ),
    {
        let fields = match v.details {
            Some(f) => f,
            None => IdMap::new(),
        };
        let det = parse_object_details(v.id.as_str(), fields);
        self.details.insert(v.id, det);
        assert(object_views(self.details@) =~= object_views(old(self).details@).insert(
            v.id@,
            object_details_from(v.id@, fields_of(v.details)),
        ));
    }

    /// Some details of an object changed; an object that was not loaded is
    /// left alone.
    pub fn handle_amend(&mut self, v: DetailsAmend)
        ensures
            texts(final(self).order@) == texts(old(self).order@),
            old(self).details@.contains_key(v.id@) ==> object_views(final(self).details@)
                == object_views(old(self).details@).insert(
                v.id@,
                amend_object(old(self).details@[v.id@]@, v.details@),
            ),
            !old(self).details@.contains_key(v.id@) ==> final(self).details@ == old(self).details@,
    {
        let found = self.details.remove(v.id.as_str());
        match found {
            None => {
                assert(self.details@ =~= old(self).details@);
            },
            Some(mut det) => {
                let ghost d0 = det@;
                let ghost es = v.details@;
                let mut entries = v.details;
                let ghost mut j: int = 0;
                assert(es.take(0) =~= Seq::<AmendEntry>::empty());
                assert(entries@ =~= es.skip(0));
                while entries.len() > 0
                    invariant
                        0 <= j <= es.len(),
                        entries@ == es.skip(j),
                        det@ == amend_object(d0, es.take(j)),
                    decreases entries.len(),
                {
                    assert(es.take(j + 1).drop_last() =~= es.take(j));
                    assert(es.take(j + 1).last() == es[j]);
                    let e = entries.remove(0);
                    let AmendEntry { key, value } = e;
                    let val = match value {
                        Some(x) => x,
                        None => FieldValue::Empty,
                    };
                    if same_text(key.as_str(), "name") {
                        det.name = extract_string(Some(&val));
                    }
                    det.fields.insert(key, val);
                    proof {
                        assert(entries@ =~= es.skip(j + 1));
                        j = j + 1;
                    }
                }
                assert(es.take(j) =~= es);
                self.details.insert(v.id, det);
                assert(object_views(self.details@) =~= object_views(old(self).details@).insert(
                    v.id@,
                    amend_object(old(self).details@[v.id@]@, es),
                ));
            },
        }
    }
}

/// The keys to request for a list: the given keys, with `id` put first
/// when it is not among them.
pub fn with_id_key(keys: Vec<String>) -> (r: Vec<String>)
    ensures
        texts(keys@).contains("id"@) ==> r@ == keys@,
        !texts(keys@).contains("id"@) ==> texts(r@) == seq!["id"@] + texts(keys@),
{
    let mut all_keys = keys;
    if !crate::text::contains_text(&all_keys, "id") {
        let ghost before = all_keys@;
        all_keys.insert(0, "id".to_owned());
        assert(texts(all_keys@) =~= seq!["id"@] + texts(before));
    }
    all_keys
}

/// Whether an object with the given type opens as a list: a set, or a
/// collection (whose type key the client reads as `collecion`).
pub fn opens_list(type_key: Option<&str>) -> (r: bool)
    ensures
        r == (type_key matches Some(k) && (k@ == "set"@ || k@ == "collecion"@)),
{
    match type_key {
        Some(k) => same_text(k, "set") || same_text(k, "collecion"),
        None => false,
    }
}

} // verus!
