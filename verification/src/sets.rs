//! The subscription to the sets and collections of a space.
use vstd::prelude::*;
use crate::events::{AmendEntry, DetailsAmend, DetailsSet, SubscriptionAdd, SubscriptionRemove};
use crate::fields::{extract_number, extract_string, fields_of, number_of, text_of, Fields};
use crate::id_map::IdMap;
use crate::ordering::{insert_ordered, inserted_in_order, retain_other, without};
use crate::text::{has_prefix, same_text, seq_has_prefix, texts};

verus! {

/// The prefix of the identifiers of set subscriptions.
pub const SETS_SUB_PREFIX: &'static str = "sets-";

/// What the client shows of a set or collection.
#[derive(Clone, PartialEq, Debug)]
pub struct SetDetails {
    pub object_id: String,
    pub name: String,
    pub layout: i32,
}

/// The texts and layout of a set's details.
pub struct SetDetailsView {
    pub object_id: Seq<char>,
    pub name: Seq<char>,
    pub layout: int,
}

impl View for SetDetails {
    type V = SetDetailsView;

    open spec fn view(&self) -> SetDetailsView {
        SetDetailsView { object_id: self.object_id@, name: self.name@, layout: self.layout as int }
    }
}

/// The details of a set read from its optional fields.
pub open spec fn set_details_from(id: Seq<char>, f: Map<Seq<char>, crate::fields::FieldValue>) -> SetDetailsView {
    SetDetailsView {
        object_id: id,
        name: text_of(f.get("name"@)),
        layout: number_of(f.get("resolvedLayout"@)),
    }
}

/// The keys of a set that an amend changes and reads as text.
pub open spec fn is_set_text_key(k: Seq<char>) -> bool {
    k == "name"@
}

/// The details of a set after the amend entries, in order, were applied.
pub open spec fn amend_set(d: SetDetailsView, es: Seq<AmendEntry>) -> SetDetailsView
    decreases es.len(),
{
    if es.len() == 0 {
        d
    } else {
        let p = amend_set(d, es.drop_last());
        let e = es.last();
        if e.key@ == "name"@ {
            SetDetailsView { name: text_of(e.value), ..p }
        } else if e.key@ == "resolvedLayout"@ {
            SetDetailsView { layout: number_of(e.value), ..p }
        } else {
            p
        }
    }
}

/// Law: after an amend, the name of a set is the text of the last `name`
/// entry, or stays when no entry has that key; the identifier never
/// changes.
pub proof fn law_amend_set_name(d: SetDetailsView, es: Seq<AmendEntry>)
    ensures
        amend_set(d, es).object_id == d.object_id,
        forall|i: int|
            0 <= i < es.len() && #[trigger] es[i].key@ == "name"@ && (forall|j: int|
                i < j < es.len() ==> es[j].key@ != "name"@) ==> amend_set(d, es).name == text_of(es[i].value),
        (forall|i: int| 0 <= i < es.len() ==> es[i].key@ != "name"@) ==> amend_set(d, es).name == d.name,
    decreases es.len(),
{
    reveal_strlit("name");
    reveal_strlit("resolvedLayout");
    if es.len() > 0 {
        let init = es.drop_last();
        law_amend_set_name(d, init);
        let e = es.last();
        if e.key@ == "name"@ {
            assert forall|i: int|
                0 <= i < es.len() && #[trigger] es[i].key@ == "name"@ && (forall|j: int|
                    i < j < es.len() ==> es[j].key@ != "name"@) implies i == es.len() - 1 by {
                if i < es.len() - 1 {
                    assert(es[es.len() - 1].key@ != "name"@);
                }
            }
        } else {
            assert forall|i: int|
                0 <= i < es.len() && #[trigger] es[i].key@ == "name"@ && (forall|j: int|
                    i < j < es.len() ==> es[j].key@ != "name"@) implies amend_set(d, es).name == text_of(es[i].value) by {
                assert(i < es.len() - 1);
                assert(init[i] == es[i]);
                assert forall|j: int| i < j < init.len() implies init[j].key@ != "name"@ by {
                    assert(init[j] == es[j]);
                }
            }
            if forall|i: int| 0 <= i < es.len() ==> es[i].key@ != "name"@ {
                assert forall|i: int| 0 <= i < init.len() implies init[i].key@ != "name"@ by {
                    assert(init[i] == es[i]);
                }
            }
        }
    }
}

/// Law: after an amend, the layout of a set is the number of the last
/// `resolvedLayout` entry, or stays when no entry has that key.
pub proof fn law_amend_set_layout(d: SetDetailsView, es: Seq<AmendEntry>)
    ensures
        forall|i: int|
            0 <= i < es.len() && #[trigger] es[i].key@ == "resolvedLayout"@ && (forall|j: int|
                i < j < es.len() ==> es[j].key@ != "resolvedLayout"@) ==> amend_set(d, es).layout == number_of(es[i].value),
        (forall|i: int| 0 <= i < es.len() ==> es[i].key@ != "resolvedLayout"@) ==> amend_set(d, es).layout == d.layout,
    decreases es.len(),
{
    reveal_strlit("name");
    reveal_strlit("resolvedLayout");
    if es.len() > 0 {
        let init = es.drop_last();
        law_amend_set_layout(d, init);
        let e = es.last();
        assert("resolvedLayout"@.len() != "name"@.len());
        assert(amend_set(d, es).layout == if e.key@ == "resolvedLayout"@ {
            number_of(e.value)
        } else {
            amend_set(d, init).layout
        });
        if e.key@ == "resolvedLayout"@ {
            assert forall|i: int|
                0 <= i < es.len() && #[trigger] es[i].key@ == "resolvedLayout"@ && (forall|j: int|
                    i < j < es.len() ==> es[j].key@ != "resolvedLayout"@) implies i == es.len() - 1 by {
                if i < es.len() - 1 {
                    assert(es[es.len() - 1].key@ != "resolvedLayout"@);
                }
            }
        } else {
            assert forall|i: int|
                0 <= i < es.len() && #[trigger] es[i].key@ == "resolvedLayout"@ && (forall|j: int|
                    i < j < es.len() ==> es[j].key@ != "resolvedLayout"@) implies amend_set(d, es).layout == number_of(es[i].value) by {
                assert(i < es.len() - 1);
                assert(init[i] == es[i]);
                assert forall|j: int| i < j < init.len() implies init[j].key@ != "resolvedLayout"@ by {
                    assert(init[j] == es[j]);
                }
            }
            if forall|i: int| 0 <= i < es.len() ==> es[i].key@ != "resolvedLayout"@ {
                assert forall|i: int| 0 <= i < init.len() implies init[i].key@ != "resolvedLayout"@ by {
                    assert(init[i] == es[i]);
                }
            }
        }
    }
}

/// The views of a map of set details.
pub open spec fn set_views(m: Map<Seq<char>, SetDetails>) -> Map<Seq<char>, SetDetailsView> {
    m.map_values(|d: SetDetails| d@)
}

/// The sets of a space, in subscription order, with their details.
#[derive(Clone, PartialEq, Debug)]
pub struct SetsState {
    pub order: Vec<String>,
    pub details: IdMap<SetDetails>,
}

impl SetsState {
    /// An empty state.
    pub fn new() -> (r: Self)
        ensures
            r.order@.len() == 0,
            r.details@ == Map::<Seq<char>, SetDetails>::empty(),
    {
        SetsState { order: Vec::new(), details: IdMap::new() }
    }

    /// Whether a subscription identifier is a sets subscription.
    pub fn matches_sub_id(sub_id: &str) -> (r: bool)
        ensures
            r == seq_has_prefix(sub_id@, SETS_SUB_PREFIX@),
    {
        has_prefix(sub_id, SETS_SUB_PREFIX)
    }

    /// The identifier of the sets subscription of a space.
    pub fn sub_id(space_id: &str) -> (r: String)
        ensures
            r@ == SETS_SUB_PREFIX@ + space_id@,
    {
        let mut s = SETS_SUB_PREFIX.to_owned();
        s.append(space_id);
        s
    }

    /// A set entered the subscription.
    pub fn handle_add(&mut self, v: SubscriptionAdd)
        ensures
            texts(final(self).order@) == inserted_in_order(texts(old(self).order@), v.id@, v.after_id@),
            final(self).details@ == old(self).details@,
    {
        insert_ordered(&mut self.order, v.id, v.after_id.as_str());
    }

    /// A set left the subscription.
    pub fn handle_remove(&mut self, v: SubscriptionRemove)
        ensures
            texts(final(self).order@) == without(texts(old(self).order@), v.id@),
            final(self).details@ == old(self).details@.remove(v.id@),
    {
        retain_other(&mut self.order, v.id.as_str());
        self.details.remove(v.id.as_str());
    }

    /// All details of a set were sent.
    pub fn handle_set(&mut self, v: DetailsSet)
        ensures
            texts(final(self).order@) == texts(old(self).order@),
            set_views(final(self).details@) == set_views(old(self).details@).insert(
                v.id@,
                set_details_from(v.id@, fields_of(v.details)),
            ),
    {
        let (name, layout) = match &v.details {
            Some(f) => (extract_string(f.get("name")), extract_number(f.get("resolvedLayout"))),
            None => (extract_string(None), extract_number(None)),
        };
        let det = SetDetails { object_id: v.id.clone(), name, layout };
        self.details.insert(v.id, det);
        assert(set_views(self.details@) =~= set_views(old(self).details@).insert(
            v.id@,
            set_details_from(v.id@, fields_of(v.details)),
        ));
    }

    /// Some details of a set changed; a set that was not loaded is left alone.
    pub fn handle_amend(&mut self, v: DetailsAmend)
        requires
            old(self).details@.contains_key(v.id@) ==> forall|i: int|
                0 <= i < v.details@.len() && is_set_text_key(#[trigger] v.details@[i].key@)
                    ==> v.details@[i].value is Some,
        ensures
            texts(final(self).order@) == texts(old(self).order@),
            old(self).details@.contains_key(v.id@) ==> set_views(final(self).details@)
                == set_views(old(self).details@).insert(
                v.id@,
                amend_set(old(self).details@[v.id@]@, v.details@),
            ),
            !old(self).details@.contains_key(v.id@) ==> final(self).details@ == old(self).details@,
    {
        let found = self.details.remove(v.id.as_str());
        match found {
            None => {
                assert(self.details@ =~= old(self).details@);
            },
            Some(mut det) => {
                let ghost d0 = det@;
                let mut i: usize = 0;
                assert(v.details@.take(0) =~= Seq::<AmendEntry>::empty());
                while i < v.details.len()
                    invariant
                        i <= v.details.len(),
                        det@ == amend_set(d0, v.details@.take(i as int)),
                    decreases v.details.len() - i,
                {
                    assert(v.details@.take(i + 1).drop_last() =~= v.details@.take(i as int));
                    assert(v.details@.take(i + 1).last() == v.details@[i as int]);
                    let e = &v.details[i];
                    if same_text(e.key.as_str(), "name") {
                        det.name = extract_string(e.value.as_ref());
                    } else if same_text(e.key.as_str(), "resolvedLayout") {
                        det.layout = extract_number(e.value.as_ref());
                    }
                    i = i + 1;
                }
                assert(v.details@.take(v.details.len() as int) =~= v.details@);
                self.details.insert(v.id, det);
                assert(set_views(self.details@) =~= set_views(old(self).details@).insert(
                    v.id@,
                    amend_set(old(self).details@[v.id@]@, v.details@),
                ));
            },
        }
    }

    /// Replaces the whole state by the records a fresh subscription returned,
    /// in their order; each record's `id` field names it.
    pub fn reset_from_records(&mut self, records: Vec<Fields>)
        ensures
            final(self).order@.len() == records@.len(),
            forall|i: int|
                0 <= i < records@.len() ==> #[trigger] final(self).order@[i]@ == text_of(
                    records@[i]@.get("id"@),
                ),
            forall|i: int|
                0 <= i < records@.len() ==> final(self).details@.contains_key(
                    #[trigger] text_of(records@[i]@.get("id"@)),
                ),
            forall|k: Seq<char>| #[trigger]
                final(self).details@.contains_key(k) ==> exists|i: int|
                    0 <= i < records@.len() && text_of(records@[i]@.get("id"@)) == k,
            forall|i: int|
                0 <= i < records@.len() && (forall|j: int|
                    i < j < records@.len() ==> text_of(records@[j]@.get("id"@)) != text_of(
                        records@[i]@.get("id"@),
                    )) ==> (#[trigger] final(self).details@[text_of(
                    records@[i]@.get("id"@),
                )])@ == set_details_from(text_of(records@[i]@.get("id"@)), records@[i]@),
    {
        self.order.clear();
        self.details.clear();
        let mut i: usize = 0;
        while i < records.len()
            invariant
                i <= records.len(),
                self.order@.len() == i,
                forall|j: int|
                    0 <= j < i ==> #[trigger] self.order@[j]@ == text_of(
                        records@[j]@.get("id"@),
                    ),
                forall|j: int|
                    0 <= j < i ==> self.details@.contains_key(
                        #[trigger] text_of(records@[j]@.get("id"@)),
                    ),
                forall|k: Seq<char>| #[trigger]
                    self.details@.contains_key(k) ==> exists|j: int|
                        0 <= j < i && text_of(records@[j]@.get("id"@)) == k,
                forall|j: int|
                    0 <= j < i && (forall|l: int|
                        j < l < i ==> text_of(records@[l]@.get("id"@)) != text_of(
                            records@[j]@.get("id"@),
                        )) ==> (#[trigger] self.details@[text_of(
                        records@[j]@.get("id"@),
                    )])@ == set_details_from(text_of(records@[j]@.get("id"@)), records@[j]@),
            decreases records.len() - i,
        {
            let record = &records[i];
            let id = extract_string(record.get("id"));
            let det = SetDetails {
                object_id: id.clone(),
                name: extract_string(record.get("name")),
                layout: extract_number(record.get("resolvedLayout")),
            };
            self.order.push(id.clone());
            self.details.insert(id, det);
            proof {
                assert forall|k: Seq<char>| #[trigger]
                    self.details@.contains_key(k) implies exists|j: int|
                        0 <= j < i + 1 && text_of(records@[j]@.get("id"@)) == k by {
                    if k != text_of(records@[i as int]@.get("id"@)) {
                        let j = choose|j: int|
                            0 <= j < i && text_of(records@[j]@.get("id"@)) == k;
                        assert(0 <= j < i + 1 && text_of(records@[j]@.get("id"@)) == k);
                    } else {
                        assert(text_of(records@[i as int]@.get("id"@)) == k);
                    }
                }
            }
            i = i + 1;
        }
    }
}

} // verus!
