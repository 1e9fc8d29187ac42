//! The subscription to the spaces of the account.
use vstd::prelude::*;
use crate::events::{AmendEntry, DetailsAmend, DetailsSet, SubscriptionAdd, SubscriptionRemove};
use crate::fields::{extract_string, fields_of, text_of, Fields};
use crate::id_map::IdMap;
use crate::ordering::{insert_ordered, inserted_in_order, retain_other, without};
use crate::text::{same_text, texts};

verus! {

/// The identifier of the spaces subscription.
pub const SPACES_SUB: &'static str = "spaces";

/// What the client shows of a space.
#[derive(Clone, PartialEq, Debug)]
pub struct SpaceDetails {
    pub object_id: String,
    pub target_space_id: String,
    pub name: String,
    pub icon_image: String,
    pub description: String,
}

/// The texts of a space's details.
pub struct SpaceDetailsView {
    pub object_id: Seq<char>,
    pub target_space_id: Seq<char>,
    pub name: Seq<char>,
    pub icon_image: Seq<char>,
    pub description: Seq<char>,
}

impl View for SpaceDetails {
    type V = SpaceDetailsView;

    open spec fn view(&self) -> SpaceDetailsView {
        SpaceDetailsView {
            object_id: self.object_id@,
            target_space_id: self.target_space_id@,
            name: self.name@,
            icon_image: self.icon_image@,
            description: self.description@,
        }
    }
}

/// The details of a space read from its fields.
pub open spec fn space_details_from(id: Seq<char>, f: Map<Seq<char>, crate::fields::FieldValue>) -> SpaceDetailsView {
    SpaceDetailsView {
        object_id: id,
        target_space_id: text_of(f.get("targetSpaceId"@)),
        name: text_of(f.get("name"@)),
        icon_image: text_of(f.get("iconImage"@)),
        description: text_of(f.get("description"@)),
    }
}

/// Reads the details of a space from its fields.
pub fn parse_space_details(object_id: &str, fields: &Fields) -> (r: SpaceDetails)
    ensures
        r@ == space_details_from(object_id@, fields@),
{
    SpaceDetails {
        object_id: object_id.to_owned(),
        target_space_id: extract_string(fields.get("targetSpaceId")),
        name: extract_string(fields.get("name")),
        icon_image: extract_string(fields.get("iconImage")),
        description: extract_string(fields.get("description")),
    }
}

/// The keys of a space that an amend changes.
pub open spec fn is_space_amend_key(k: Seq<char>) -> bool {
    k == "name"@ || k == "iconImage"@ || k == "description"@ || k == "targetSpaceId"@
}

/// The details of a space after the amend entries, in order, were applied.
pub open spec fn amend_space(d: SpaceDetailsView, es: Seq<AmendEntry>) -> SpaceDetailsView
    decreases es.len(),
{
    if es.len() == 0 {
        d
    } else {
        let p = amend_space(d, es.drop_last());
        let e = es.last();
        let t = text_of(e.value);
        if e.key@ == "name"@ {
            SpaceDetailsView { name: t, ..p }
        } else if e.key@ == "iconImage"@ {
            SpaceDetailsView { icon_image: t, ..p }
        } else if e.key@ == "description"@ {
            SpaceDetailsView { description: t, ..p }
        } else if e.key@ == "targetSpaceId"@ {
            SpaceDetailsView { target_space_id: t, ..p }
        } else {
            p
        }
    }
}

/// The field of a space's details that an amend key names.
pub open spec fn space_field(d: SpaceDetailsView, key: Seq<char>) -> Seq<char> {
    if key == "name"@ {
        d.name
    } else if key == "iconImage"@ {
        d.icon_image
    } else if key == "description"@ {
        d.description
    } else {
        d.target_space_id
    }
}

/// Law: after an amend, each of the fields `name`, `iconImage`,
/// `description` and `targetSpaceId` holds the text of the last entry with
/// its key, or keeps its value when no entry has that key; the identifier
/// never changes.
pub proof fn law_amend_space_last_entry_wins(d: SpaceDetailsView, es: Seq<AmendEntry>, key: Seq<char>)
    requires
        key == "name"@ || key == "iconImage"@ || key == "description"@ || key == "targetSpaceId"@,
    ensures
        amend_space(d, es).object_id == d.object_id,
        forall|i: int|
            0 <= i < es.len() && #[trigger] es[i].key@ == key && (forall|j: int|
                i < j < es.len() ==> es[j].key@ != key) ==> space_field(amend_space(d, es), key)
                == text_of(es[i].value),
        (forall|i: int| 0 <= i < es.len() ==> es[i].key@ != key) ==> space_field(
            amend_space(d, es),
            key,
        ) == space_field(d, key),
    decreases es.len(),
{
    reveal_strlit("name");
    reveal_strlit("iconImage");
    reveal_strlit("description");
    reveal_strlit("targetSpaceId");
    if es.len() > 0 {
        let init = es.drop_last();
        law_amend_space_last_entry_wins(d, init, key);
        let e = es.last();
        if e.key@ == key {
            assert forall|i: int|
                0 <= i < es.len() && #[trigger] es[i].key@ == key && (forall|j: int|
                    i < j < es.len() ==> es[j].key@ != key) implies i == es.len() - 1 by {
                if i < es.len() - 1 {
                    assert(es[es.len() - 1].key@ != key);
                }
            }
        } else {
            assert forall|i: int|
                0 <= i < es.len() && #[trigger] es[i].key@ == key && (forall|j: int|
                    i < j < es.len() ==> es[j].key@ != key) implies space_field(
                amend_space(d, es),
                key,
            ) == text_of(es[i].value) by {
                assert(i < es.len() - 1);
                assert(init[i] == es[i]);
                assert forall|j: int| i < j < init.len() implies init[j].key@ != key by {
                    assert(init[j] == es[j]);
                }
            }
            if forall|i: int| 0 <= i < es.len() ==> es[i].key@ != key {
                assert forall|i: int| 0 <= i < init.len() implies init[i].key@ != key by {
                    assert(init[i] == es[i]);
                }
            }
        }
    }
}

/// The views of a map of space details.
pub open spec fn space_views(m: Map<Seq<char>, SpaceDetails>) -> Map<Seq<char>, SpaceDetailsView> {
    m.map_values(|d: SpaceDetails| d@)
}

/// The spaces of the account, in subscription order, with their details.
#[derive(Clone, PartialEq, Debug)]
pub struct SpacesState {
    pub order: Vec<String>,
    pub details: IdMap<SpaceDetails>,
}

impl SpacesState {
    /// An empty state.
    pub fn new() -> (r: Self)
        ensures
            r.order@.len() == 0,
            r.details@ == Map::<Seq<char>, SpaceDetails>::empty(),
    {
        SpacesState { order: Vec::new(), details: IdMap::new() }
    }

    /// Whether a subscription identifier is the spaces subscription.
    pub fn matches_sub_id(sub_id: &str) -> (r: bool)
        ensures
            r == (sub_id@ == SPACES_SUB@),
    {
        same_text(sub_id, SPACES_SUB)
    }

    /// The identifier of the spaces subscription.
    pub fn sub_id() -> (r: String)
        ensures
            r@ == SPACES_SUB@,
    {
        SPACES_SUB.to_owned()
    }

    /// A space entered the subscription.
    pub fn handle_add(&mut self, v: SubscriptionAdd)
        ensures
            texts(final(self).order@) == inserted_in_order(texts(old(self).order@), v.id@, v.after_id@),
            final(self).details@ == old(self).details@,
    {
        insert_ordered(&mut self.order, v.id, v.after_id.as_str());
    }

    /// A space left the subscription.
    pub fn handle_remove(&mut self, v: SubscriptionRemove)
        ensures
            texts(final(self).order@) == without(texts(old(self).order@), v.id@),
            final(self).details@ == old(self).details@.remove(v.id@),
    {
        retain_other(&mut self.order, v.id.as_str());
        self.details.remove(v.id.as_str());
    }

    /// All details of a space were sent.
    pub fn handle_set(&mut self, v: DetailsSet)
        ensures
            texts(final(self).order@) == texts(old(self).order@),
            space_views(final(self).details@) == space_views(old(self).details@).insert(
                v.id@,
                space_details_from(v.id@, fields_of(v.details)),
            ),
    {
        let fields = match v.details {
            Some(f) => f,
            None => IdMap::new(),
        };
        let det = parse_space_details(v.id.as_str(), &fields);
        self.details.insert(v.id, det);
        assert(space_views(self.details@) =~= space_views(old(self).details@).insert(
            v.id@,
            space_details_from(v.id@, fields_of(v.details)),
        ));
    }

    /// Some details of a space changed; a space that was not loaded is left
    /// alone.
    pub fn handle_amend(&mut self, v: DetailsAmend)
        requires
            old(self).details@.contains_key(v.id@) ==> forall|i: int|
                0 <= i < v.details@.len() && is_space_amend_key(#[trigger] v.details@[i].key@)
                    ==> v.details@[i].value is Some,
        ensures
            texts(final(self).order@) == texts(old(self).order@),
            old(self).details@.contains_key(v.id@) ==> space_views(final(self).details@)
                == space_views(old(self).details@).insert(
                v.id@,
                amend_space(old(self).details@[v.id@]@, v.details@),
            ),
            !old(self).details@.contains_key(v.id@) ==> final(self).details@ == old(self).details@,
    {
        let found = self.details.remove(v.id.as_str());
        match found {
            None => {
                assert(self.details@ =~= old(self).details@);
            },
            Some(mut det) => {
                let ghost d0 = det@;
                let mut i: usize = 0;
                assert(v.details@.take(0) =~= Seq::<AmendEntry>::empty());
                while i < v.details.len()
                    invariant
                        i <= v.details.len(),
                        det@ == amend_space(d0, v.details@.take(i as int)),
                        forall|j: int|
                            0 <= j < v.details@.len() && is_space_amend_key(
                                #[trigger] v.details@[j].key@,
                            ) ==> v.details@[j].value is Some,
                    decreases v.details.len() - i,
                {
                    assert(v.details@.take(i + 1).drop_last() =~= v.details@.take(i as int));
                    assert(v.details@.take(i + 1).last() == v.details@[i as int]);
                    let e = &v.details[i];
                    if same_text(e.key.as_str(), "name") {
                        det.name = extract_string(e.value.as_ref());
                    } else if same_text(e.key.as_str(), "iconImage") {
                        det.icon_image = extract_string(e.value.as_ref());
                    } else if same_text(e.key.as_str(), "description") {
                        det.description = extract_string(e.value.as_ref());
                    } else if same_text(e.key.as_str(), "targetSpaceId") {
                        det.target_space_id = extract_string(e.value.as_ref());
                    }
                    i = i + 1;
                }
                assert(v.details@.take(v.details.len() as int) =~= v.details@);
                self.details.insert(v.id, det);
                assert(space_views(self.details@) =~= space_views(old(self).details@).insert(
                    v.id@,
                    amend_space(old(self).details@[v.id@]@, v.details@),
                ));
            },
        }
    }

    /// Replaces the whole state by the records a fresh subscription returned,
    /// in their order; each record's `id` field names it.
    pub fn reset_from_records(&mut self, records: Vec<Fields>)
        ensures
            final(self).order@.len() == records@.len(),
            forall|i: int|
                0 <= i < records@.len() ==> #[trigger] final(self).order@[i]@ == text_of(
                    records@[i]@.get("id"@),
                ),
            forall|i: int|
                0 <= i < records@.len() ==> final(self).details@.contains_key(
                    #[trigger] text_of(records@[i]@.get("id"@)),
                ),
            forall|k: Seq<char>| #[trigger]
                final(self).details@.contains_key(k) ==> exists|i: int|
                    0 <= i < records@.len() && text_of(records@[i]@.get("id"@)) == k,
            forall|i: int|
                0 <= i < records@.len() && (forall|j: int|
                    i < j < records@.len() ==> text_of(records@[j]@.get("id"@)) != text_of(
                        records@[i]@.get("id"@),
                    )) ==> (#[trigger] final(self).details@[text_of(
                    records@[i]@.get("id"@),
                )])@ == space_details_from(
                    text_of(records@[i]@.get("id"@)),
                    records@[i]@,
                ),
    {
        self.order.clear();
        self.details.clear();
        let mut i: usize = 0;
        while i < records.len()
            invariant
                i <= records.len(),
                self.order@.len() == i,
                forall|j: int|
                    0 <= j < i ==> #[trigger] self.order@[j]@ == text_of(
                        records@[j]@.get("id"@),
                    ),
                forall|j: int|
                    0 <= j < i ==> self.details@.contains_key(
                        #[trigger] text_of(records@[j]@.get("id"@)),
                    ),
                forall|k: Seq<char>| #[trigger]
                    self.details@.contains_key(k) ==> exists|j: int|
                        0 <= j < i && text_of(records@[j]@.get("id"@)) == k,
                forall|j: int|
                    0 <= j < i && (forall|l: int|
                        j < l < i ==> text_of(records@[l]@.get("id"@)) != text_of(
                            records@[j]@.get("id"@),
                        )) ==> (#[trigger] self.details@[text_of(
                        records@[j]@.get("id"@),
                    )])@ == space_details_from(text_of(records@[j]@.get("id"@)), records@[j]@),
            decreases records.len() - i,
        {
            let record = &records[i];
            let id = extract_string(record.get("id"));
            let det = parse_space_details(id.as_str(), record);
            self.order.push(det.object_id.clone());
            self.details.insert(det.object_id.clone(), det);
            proof {
                assert forall|k: Seq<char>| #[trigger]
                    self.details@.contains_key(k) implies exists|j: int|
                        0 <= j < i + 1 && text_of(records@[j]@.get("id"@)) == k by {
                    if k != id@ {
                        let j = choose|j: int|
                            0 <= j < i && text_of(records@[j]@.get("id"@)) == k;
                        assert(0 <= j < i + 1 && text_of(records@[j]@.get("id"@)) == k);
                    } else {
                        assert(text_of(records@[i as int]@.get("id"@)) == k);
                    }
                }
            }
            i = i + 1;
        }
    }
}

} // verus!
