//! The options of select and status relations.
use vstd::prelude::*;
use crate::events::{AmendEntry, DetailsAmend, DetailsSet};
use crate::fields::{extract_string, fields_of, text_of, FieldValue};
use crate::id_map::IdMap;
use crate::list_objects::entry_value;
use crate::text::{same_text, texts};

verus! {

/// An option of a select or status relation.
#[derive(Clone, PartialEq, Debug)]
pub struct RelationOptionDetails {
    pub id: String,
    pub name: String,
    pub relation_key: String,
    pub color: String,
}

/// The texts of an option's details.
pub struct RelationOptionView {
    pub id: Seq<char>,
    pub name: Seq<char>,
    pub relation_key: Seq<char>,
    pub color: Seq<char>,
}

impl View for RelationOptionDetails {
    type V = RelationOptionView;

    open spec fn view(&self) -> RelationOptionView {
        RelationOptionView {
            id: self.id@,
            name: self.name@,
            relation_key: self.relation_key@,
            color: self.color@,
        }
    }
}

/// The details of an option read from its fields.
pub open spec fn option_details_from(id: Seq<char>, f: Map<Seq<char>, FieldValue>) -> RelationOptionView {
    RelationOptionView {
        id,
        name: text_of(f.get("name"@)),
        relation_key: text_of(f.get("relationKey"@)),
        color: text_of(f.get("relationOptionColor"@)),
    }
}

/// The details of an option after the amend entries, in order, were applied.
pub open spec fn amend_option(d: RelationOptionView, es: Seq<AmendEntry>) -> RelationOptionView
    decreases es.len(),
{
    if es.len() == 0 {
        d
    } else {
        let p = amend_option(d, es.drop_last());
        let e = es.last();
        let t = text_of(Some(entry_value(e.value)));
        if e.key@ == "name"@ {
            RelationOptionView { name: t, ..p }
        } else if e.key@ == "relationOptionColor"@ {
            RelationOptionView { color: t, ..p }
        } else {
            p
        }
    }
}

/// Law: after an amend, the name of an option is the text of the last
/// `name` entry (empty for an entry without a value), or stays when no entry
/// has that key; the identifier and the relation never change.
pub proof fn law_amend_option_name(d: RelationOptionView, es: Seq<AmendEntry>)
    ensures
        amend_option(d, es).id == d.id,
        amend_option(d, es).relation_key == d.relation_key,
        forall|i: int|
            0 <= i < es.len() && #[trigger] es[i].key@ == "name"@ && (forall|j: int|
                i < j < es.len() ==> es[j].key@ != "name"@) ==> amend_option(d, es).name == text_of(Some(entry_value(es[i].value))),
        (forall|i: int| 0 <= i < es.len() ==> es[i].key@ != "name"@) ==> amend_option(d, es).name == d.name,
    decreases es.len(),
{
    reveal_strlit("name");
    reveal_strlit("relationOptionColor");
    if es.len() > 0 {
        let init = es.drop_last();
        law_amend_option_name(d, init);
        let e = es.last();
        if e.key@ == "name"@ {
            assert forall|i: int|
                0 <= i < es.len() && #[trigger] es[i].key@ == "name"@ && (forall|j: int|
                    i < j < es.len() ==> es[j].key@ != "name"@) implies i == es.len() - 1 by {
                if i < es.len() - 1 {
                    assert(es[es.len() - 1].key@ != "name"@);
                }
            }
        } else {
            assert forall|i: int|
                0 <= i < es.len() && #[trigger] es[i].key@ == "name"@ && (forall|j: int|
                    i < j < es.len() ==> es[j].key@ != "name"@) implies amend_option(d, es).name == text_of(Some(entry_value(es[i].value))) by {
                assert(i < es.len() - 1);
                assert(init[i] == es[i]);
                assert forall|j: int| i < j < init.len() implies init[j].key@ != "name"@ by {
                    assert(init[j] == es[j]);
                }
            }
            if forall|i: int| 0 <= i < es.len() ==> es[i].key@ != "name"@ {
                assert forall|i: int| 0 <= i < init.len() implies init[i].key@ != "name"@ by {
                    assert(init[i] == es[i]);
                }
            }
        }
    }
}

/// Law: after an amend, the colour of an option is the text of the last
/// `relationOptionColor` entry (empty for an entry without a value), or
/// stays when no entry has that key.
pub proof fn law_amend_option_color(d: RelationOptionView, es: Seq<AmendEntry>)
    ensures
        forall|i: int|
            0 <= i < es.len() && #[trigger] es[i].key@ == "relationOptionColor"@ && (forall|j: int|
                i < j < es.len() ==> es[j].key@ != "relationOptionColor"@) ==> amend_option(d, es).color == text_of(Some(entry_value(es[i].value))),
        (forall|i: int| 0 <= i < es.len() ==> es[i].key@ != "relationOptionColor"@) ==> amend_option(d, es).color == d.color,
    decreases es.len(),
{
    reveal_strlit("name");
    reveal_strlit("relationOptionColor");
    if es.len() > 0 {
        let init = es.drop_last();
        law_amend_option_color(d, init);
        let e = es.last();
        assert("relationOptionColor"@.len() != "name"@.len());
        assert(amend_option(d, es).color == if e.key@ == "relationOptionColor"@ {
            text_of(Some(entry_value(e.value)))
        } else {
            amend_option(d, init).color
        });
        if e.key@ == "relationOptionColor"@ {
            assert forall|i: int|
                0 <= i < es.len() && #[trigger] es[i].key@ == "relationOptionColor"@ && (forall|j: int|
                    i < j < es.len() ==> es[j].key@ != "relationOptionColor"@) implies i == es.len() - 1 by {
                if i < es.len() - 1 {
                    assert(es[es.len() - 1].key@ != "relationOptionColor"@);
                }
            }
        } else {
            assert forall|i: int|
                0 <= i < es.len() && #[trigger] es[i].key@ == "relationOptionColor"@ && (forall|j: int|
                    i < j < es.len() ==> es[j].key@ != "relationOptionColor"@) implies amend_option(d, es).color == text_of(Some(entry_value(es[i].value))) by {
                assert(i < es.len() - 1);
                assert(init[i] == es[i]);
                assert forall|j: int| i < j < init.len() implies init[j].key@ != "relationOptionColor"@ by {
                    assert(init[j] == es[j]);
                }
            }
            if forall|i: int| 0 <= i < es.len() ==> es[i].key@ != "relationOptionColor"@ {
                assert forall|i: int| 0 <= i < init.len() implies init[i].key@ != "relationOptionColor"@ by {
                    assert(init[i] == es[i]);
                }
            }
        }
    }
}

/// The views of a map of option details.
pub open spec fn option_views(m: Map<Seq<char>, RelationOptionDetails>) -> Map<Seq<char>, RelationOptionView> {
    m.map_values(|d: RelationOptionDetails| d@)
}

/// The option lists of a map from relation keys to option identifiers.
pub open spec fn option_lists(m: Map<Seq<char>, Vec<String>>) -> Map<Seq<char>, Seq<Seq<char>>> {
    m.map_values(|v: Vec<String>| texts(v@))
}

/// The options list of a relation, empty when it has none.
pub open spec fn options_of(m: Map<Seq<char>, Seq<Seq<char>>>, k: Seq<char>) -> Seq<Seq<char>> {
    if m.contains_key(k) {
        m[k]
    } else {
        Seq::empty()
    }
}

/// The option identifier that a status value names: its text, or the first
/// item of a list when that item is a text; none otherwise.
pub open spec fn status_id_of(v: FieldValue) -> Option<Seq<char>> {
    match v {
        FieldValue::Text(s) => Some(s@),
        FieldValue::List(vs) => if vs@.len() > 0 {
            match vs@[0] {
                FieldValue::Text(s) => Some(s@),
                _ => None,
            }
        } else {
            None
        },
        _ => None,
    }
}

/// Law: a status value names an option by its text, or by the first item of
/// a list when that item is a text; an empty list, a list starting with
/// something else, and any other value name none.
pub proof fn law_status_id_of(v: FieldValue)
    ensures
        v matches FieldValue::Text(s) ==> status_id_of(v) == Some(s@),
        v matches FieldValue::List(vs) ==> (vs@.len() > 0 && vs@[0] is Text ==> status_id_of(v)
            == Some(vs@[0]->Text_0@)),
        v matches FieldValue::List(vs) ==> (!(vs@.len() > 0 && vs@[0] is Text) ==> status_id_of(v)
            is None),
        !(v is Text || v is List) ==> status_id_of(v) is None,
{
}

/// The option identifier that a status value names (see `status_id_of`).
pub fn status_option_id(v: &FieldValue) -> (r: Option<String>)
    ensures
        crate::invite::opt_text(r) == status_id_of(*v),
{
    match v {
        FieldValue::Text(s) => Some(s.clone()),
        FieldValue::List(vs) => {
            if vs.len() > 0 {
                match &vs[0] {
                    FieldValue::Text(s) => Some(s.clone()),
                    _ => None,
                }
            } else {
                None
            }
        },
        _ => None,
    }
}

/// The options of relations: the ordered option identifiers of each
/// relation, and each option's details.
#[derive(Clone, PartialEq, Debug)]
pub struct RelationOptionsState {
    pub by_relation: IdMap<Vec<String>>,
    pub details: IdMap<RelationOptionDetails>,
}

impl RelationOptionsState {
    /// An empty state.
    pub fn new() -> (r: Self)
        ensures
            r.by_relation@ == Map::<Seq<char>, Vec<String>>::empty(),
            r.details@ == Map::<Seq<char>, RelationOptionDetails>::empty(),
    {
        RelationOptionsState { by_relation: IdMap::new(), details: IdMap::new() }
    }

    /// All details of an option were sent: the option is appended to the
    /// list of its relation and its details are recorded.
    pub fn handle_set(&mut self, v: DetailsSet)
        ensures
            option_lists(final(self).by_relation@) == option_lists(old(self).by_relation@).insert(
                text_of(fields_of(v.details).get("relationKey"@)),
                options_of(
                    option_lists(old(self).by_relation@),
                    text_of(fields_of(v.details).get("relationKey"@)),
                ).push(v.id@),
            ),
            option_views(final(self).details@) == option_views(old(self).details@).insert(
                v.id@,
                option_details_from(v.id@, fields_of(v.details)),
            ),
    {
        let (relation_key, name, color) = match &v.details {
            Some(f) => (
                extract_string(f.get("relationKey")),
                extract_string(f.get("name")),
                extract_string(f.get("relationOptionColor")),
            ),
            None => (extract_string(None), extract_string(None), extract_string(None)),
        };
        let opt = RelationOptionDetails {
            id: v.id.clone(),
            name,
            color,
            relation_key: relation_key.clone(),
        };
        let mut list = match self.by_relation.remove(relation_key.as_str()) {
            Some(l) => l,
            None => Vec::new(),
        };
        let ghost before = list@;
        let ghost rk = text_of(fields_of(v.details).get("relationKey"@));
        assert(relation_key@ == rk);
        assert(texts(before) == options_of(option_lists(old(self).by_relation@), rk));
        list.push(v.id.clone());
        assert(texts(list@) =~= texts(before).push(v.id@));
        self.by_relation.insert(relation_key, list);
        self.details.insert(v.id, opt);
        assert(option_lists(self.by_relation@) =~= option_lists(old(self).by_relation@).insert(
            text_of(fields_of(v.details).get("relationKey"@)),
            options_of(
                option_lists(old(self).by_relation@),
                text_of(fields_of(v.details).get("relationKey"@)),
            ).push(v.id@),
        ));
        assert(option_views(self.details@) =~= option_views(old(self).details@).insert(
            v.id@,
            option_details_from(v.id@, fields_of(v.details)),
        ));
    }

    /// The name of the option that a status value names; the empty text when
    /// the value names no option id, or names one that is not known.
    pub fn status_name(&self, v: &FieldValue) -> (r: String)
        ensures
            r@ == match status_id_of(*v) {
                Some(id) => if self.details@.contains_key(id) {
                    self.details@[id].name@
                } else {
                    Seq::<char>::empty()
                },
                None => Seq::<char>::empty(),
            },
    {
        match status_option_id(v) {
            None => String::new(),
            Some(id) => match self.details.get(id.as_str()) {
                Some(opt) => opt.name.clone(),
                None => String::new(),
            },
        }
    }

    /// Some details of an option changed; an unknown option is left alone.
    pub fn handle_amend(&mut self, v: DetailsAmend)
        ensures
            final(self).by_relation@ == old(self).by_relation@,
            old(self).details@.contains_key(v.id@) ==> option_views(final(self).details@)
                == option_views(old(self).details@).insert(
                v.id@,
                amend_option(old(self).details@[v.id@]@, v.details@),
            ),
            !old(self).details@.contains_key(v.id@) ==> final(self).details@ == old(self).details@,
    {
        let found = self.details.remove(v.id.as_str());
        match found {
            None => {
                assert(self.details@ =~= old(self).details@);
            },
            Some(mut opt) => {
                let ghost d0 = opt@;
                let mut i: usize = 0;
                assert(v.details@.take(0) =~= Seq::<AmendEntry>::empty());
                while i < v.details.len()
                    invariant
                        i <= v.details.len(),
                        opt@ == amend_option(d0, v.details@.take(i as int)),
                    decreases v.details.len() - i,
                {
                    assert(v.details@.take(i + 1).drop_last() =~= v.details@.take(i as int));
                    assert(v.details@.take(i + 1).last() == v.details@[i as int]);
                    let e = &v.details[i];
                    if same_text(e.key.as_str(), "name") {
                        opt.name = extract_string(e.value.as_ref());
                    } else if same_text(e.key.as_str(), "relationOptionColor") {
                        opt.color = extract_string(e.value.as_ref());
                    }
                    i = i + 1;
                }
                assert(v.details@.take(v.details.len() as int) =~= v.details@);
                self.details.insert(v.id, opt);
                assert(option_views(self.details@) =~= option_views(old(self).details@).insert(
                    v.id@,
                    amend_option(old(self).details@[v.id@]@, v.details@),
                ));
            },
        }
    }
}

} // verus!
