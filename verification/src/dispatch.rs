//! Routing the engine's events to the state they change.
use vstd::prelude::*;
use crate::events::{DetailsAmend, DetailsSet, SubscriptionAdd, SubscriptionRemove};
use crate::fields::fields_of;
use crate::list_objects::{
    amend_object, object_details_from, object_views, ListObjectsState, LIST_SUB_PREFIX,
};
use crate::ordering::{insert_ordered, inserted_in_order, retain_other, without};
use crate::set_meta::{SetMetaState, ViewDelete, ViewOrder, ViewSet, ViewUpdate};
use crate::sets::{is_set_text_key, SetsState, SETS_SUB_PREFIX};
use crate::spaces::{is_space_amend_key, SpacesState, SPACES_SUB};
use crate::text::{has_prefix, same_text, seq_has_prefix, texts};

verus! {

/// An event of the engine that the client acts on.
pub enum Message<F, S> {
    DetailsSet(DetailsSet),
    DetailsAmend(DetailsAmend),
    SubscriptionAdd(SubscriptionAdd),
    SubscriptionRemove(SubscriptionRemove),
    ViewSet(ViewSet<F, S>),
    ViewDelete(ViewDelete),
    ViewUpdate(ViewUpdate<F, S>),
    ViewOrder(ViewOrder),
    /// Any other event.
    Other,
}

/// Which state an event goes to.
pub enum Route {
    Spaces,
    Sets,
    List,
    SetMeta,
    Ignore,
}

/// `needle` occurs in `hay`.
pub open spec fn occurs_in(hay: Seq<char>, needle: Seq<char>) -> bool {
    exists|i: int| 0 <= i && i + needle.len() <= hay.len() && #[trigger] hay.subrange(i, i + needle.len()) == needle
}

/// Whether `needle` occurs in `hay`.
pub fn text_contains(hay: &str, needle: &str) -> (r: bool)
    ensures
        r == occurs_in(hay@, needle@),
{
    let n = hay.unicode_len();
    let m = needle.unicode_len();
    if m > n {
        assert forall|i: int| 0 <= i && i + needle@.len() <= hay@.len() implies #[trigger] hay@.subrange(
            i,
            i + needle@.len(),
        ) != needle@ by {}
        return false;
    }
    let mut i: usize = 0;
    loop
        invariant
            n == hay@.len(),
            m == needle@.len(),
            m <= n,
            i <= n - m,
            forall|j: int| 0 <= j < i ==> #[trigger] hay@.subrange(j, j + m) != needle@,
        decreases n - m - i,
    {
        let rest = hay.substring_char(i, n);
        assert(rest@.subrange(0, m as int) =~= hay@.subrange(i as int, i + m));
        if has_prefix(rest, needle) {
            assert(hay@.subrange(i as int, i + needle@.len()) == needle@);
            return true;
        }
        if i == n - m {
            assert forall|j: int| 0 <= j && j + needle@.len() <= hay@.len() implies #[trigger] hay@.subrange(
                j,
                j + needle@.len(),
            ) != needle@ by {
                assert(hay@.subrange(j, j + m) != needle@);
            }
            return false;
        }
        i = i + 1;
    }
}

/// Some identifier of `ids` starts with `prefix`.
pub open spec fn any_has_prefix(ids: Seq<Seq<char>>, prefix: Seq<char>) -> bool {
    exists|i: int| 0 <= i < ids.len() && seq_has_prefix(#[trigger] ids[i], prefix)
}

fn any_starts_with(ids: &Vec<String>, prefix: &str) -> (r: bool)
    ensures
        r == any_has_prefix(texts(ids@), prefix@),
{
    let mut i: usize = 0;
    while i < ids.len()
        invariant
            i <= ids.len(),
            forall|j: int| 0 <= j < i ==> !seq_has_prefix(#[trigger] texts(ids@)[j], prefix@),
        decreases ids.len() - i,
    {
        if has_prefix(ids[i].as_str(), prefix) {
            assert(seq_has_prefix(texts(ids@)[i as int], prefix@));
            return true;
        }
        i = i + 1;
    }
    false
}

/// Where the details of an object go, by the subscriptions that sent them:
/// the spaces, a sets or a list subscription, or (sent outside any
/// subscription) the open set when the event's context is its identifier.
pub open spec fn details_route(sub_ids: Seq<Seq<char>>, context_id: Seq<char>, set_meta_id: Seq<char>) -> Route {
    if sub_ids.contains(SPACES_SUB@) {
        Route::Spaces
    } else if any_has_prefix(sub_ids, SETS_SUB_PREFIX@) {
        Route::Sets
    } else if any_has_prefix(sub_ids, LIST_SUB_PREFIX@) {
        Route::List
    } else if sub_ids.len() == 0 && occurs_in(set_meta_id, context_id) {
        Route::SetMeta
    } else {
        Route::Ignore
    }
}

/// Where an object entering or leaving a subscription goes.
pub open spec fn sub_route(sub_id: Seq<char>) -> Route {
    if sub_id == SPACES_SUB@ {
        Route::Spaces
    } else if seq_has_prefix(sub_id, SETS_SUB_PREFIX@) {
        Route::Sets
    } else if seq_has_prefix(sub_id, LIST_SUB_PREFIX@) {
        Route::List
    } else {
        Route::Ignore
    }
}

/// Law: details sent with the `spaces` subscription go to the spaces; else,
/// with a subscription whose identifier starts with `sets-`, to the sets;
/// else, with one that starts with `list`, to the list objects; details sent
/// outside any subscription go to the open set when the event's context
/// occurs in its identifier; all others are ignored.
pub proof fn law_details_route(sub_ids: Seq<Seq<char>>, context_id: Seq<char>, set_meta_id: Seq<char>)
    ensures
        ({
            let r = details_route(sub_ids, context_id, set_meta_id);
            let spaces = exists|i: int| 0 <= i < sub_ids.len() && #[trigger] sub_ids[i] == "spaces"@;
            let sets = exists|i: int|
                0 <= i < sub_ids.len() && 5 <= sub_ids[i].len() && #[trigger] sub_ids[i].subrange(0, 5)
                    == "sets-"@;
            let list = exists|i: int|
                0 <= i < sub_ids.len() && 4 <= sub_ids[i].len() && #[trigger] sub_ids[i].subrange(0, 4)
                    == "list"@;
            let in_set = exists|i: int|
                0 <= i && i + context_id.len() <= set_meta_id.len() && #[trigger] set_meta_id.subrange(
                    i,
                    i + context_id.len(),
                ) == context_id;
            &&& spaces ==> r is Spaces
            &&& !spaces && sets ==> r is Sets
            &&& !spaces && !sets && list ==> r is List
            &&& !spaces && !sets && !list && sub_ids.len() == 0 && in_set ==> r is SetMeta
            &&& !spaces && !sets && !list && !(sub_ids.len() == 0 && in_set) ==> r is Ignore
        }),
{
    reveal_strlit("spaces");
    reveal_strlit("sets-");
    reveal_strlit("list");
    if exists|i: int| 0 <= i < sub_ids.len() && #[trigger] sub_ids[i] == "spaces"@ {
        let i = choose|i: int| 0 <= i < sub_ids.len() && #[trigger] sub_ids[i] == "spaces"@;
        assert(sub_ids.contains(SPACES_SUB@));
    }
    if sub_ids.contains(SPACES_SUB@) {
        let i = choose|i: int| 0 <= i < sub_ids.len() && sub_ids[i] == SPACES_SUB@;
        assert(sub_ids[i] == "spaces"@);
    }
    assert forall|i: int| 0 <= i < sub_ids.len() implies seq_has_prefix(#[trigger] sub_ids[i], SETS_SUB_PREFIX@)
        == (5 <= sub_ids[i].len() && sub_ids[i].subrange(0, 5) == "sets-"@) by {}
    assert forall|i: int| 0 <= i < sub_ids.len() implies seq_has_prefix(#[trigger] sub_ids[i], LIST_SUB_PREFIX@)
        == (4 <= sub_ids[i].len() && sub_ids[i].subrange(0, 4) == "list"@) by {}
}

/// Law: an object entering or leaving the `spaces` subscription goes to the
/// spaces; one of a subscription starting with `sets-` to the sets; one of a
/// subscription starting with `list` to the list objects; others are
/// ignored.
pub proof fn law_sub_route(sub_id: Seq<char>)
    ensures
        sub_id == "spaces"@ ==> sub_route(sub_id) is Spaces,
        sub_id != "spaces"@ && 5 <= sub_id.len() && sub_id.subrange(0, 5) == "sets-"@ ==> sub_route(sub_id) is Sets,
        sub_id != "spaces"@ && !(5 <= sub_id.len() && sub_id.subrange(0, 5) == "sets-"@) && 4 <= sub_id.len()
            && sub_id.subrange(0, 4) == "list"@ ==> sub_route(sub_id) is List,
        sub_id != "spaces"@ && !(5 <= sub_id.len() && sub_id.subrange(0, 5) == "sets-"@) && !(4
            <= sub_id.len() && sub_id.subrange(0, 4) == "list"@) ==> sub_route(sub_id) is Ignore,
{
    reveal_strlit("spaces");
    reveal_strlit("sets-");
    reveal_strlit("list");
}

/// All the state that the engine's events keep.
pub struct ClientState<F, S> {
    pub spaces: SpacesState,
    pub sets: SetsState,
    pub list_objects: ListObjectsState,
    pub set_meta: SetMetaState<F, S>,
}

impl<F, S> ClientState<F, S> {
    fn route_details(&self, sub_ids: &Vec<String>, context_id: &str) -> (r: Route)
        ensures
            r == details_route(texts(sub_ids@), context_id@, self.set_meta.id@),
    {
        if crate::text::contains_text(sub_ids, SPACES_SUB) {
            Route::Spaces
        } else if any_starts_with(sub_ids, SETS_SUB_PREFIX) {
            Route::Sets
        } else if any_starts_with(sub_ids, LIST_SUB_PREFIX) {
            Route::List
        } else if sub_ids.len() == 0 && text_contains(self.set_meta.id.as_str(), context_id) {
            Route::SetMeta
        } else {
            Route::Ignore
        }
    }

    fn route_sub(sub_id: &str) -> (r: Route)
        ensures
            r == sub_route(sub_id@),
    {
        if same_text(sub_id, SPACES_SUB) {
            Route::Spaces
        } else if has_prefix(sub_id, SETS_SUB_PREFIX) {
            Route::Sets
        } else if has_prefix(sub_id, LIST_SUB_PREFIX) {
            Route::List
        } else {
            Route::Ignore
        }
    }

    /// Applies one event of the engine to the state it concerns; other
    /// state is left as it is. Details go where `details_route` says,
    /// subscription changes where `sub_route` says, and view events to the
    /// open set.
    pub fn handle_msg(&mut self, context_id: &str, msg: Message<F, S>)
        requires
            msg matches Message::DetailsAmend(v) ==> ({
                let route = details_route(texts(v.sub_ids@), context_id@, old(self).set_meta.id@);
                &&& (route is Spaces && old(self).spaces.details@.contains_key(v.id@)) ==> forall|i: int|
                    0 <= i < v.details@.len() && is_space_amend_key(#[trigger] v.details@[i].key@)
                        ==> v.details@[i].value is Some
                &&& (route is Sets && old(self).sets.details@.contains_key(v.id@)) ==> forall|i: int|
                    0 <= i < v.details@.len() && is_set_text_key(#[trigger] v.details@[i].key@)
                        ==> v.details@[i].value is Some
            }),
        ensures
            match msg {
                Message::DetailsSet(v) => {
                    let route = details_route(texts(v.sub_ids@), context_id@, old(self).set_meta.id@);
                    &&& route is Spaces ==> crate::spaces::space_views(final(self).spaces.details@)
                        == crate::spaces::space_views(old(self).spaces.details@).insert(
                        v.id@,
                        crate::spaces::space_details_from(v.id@, fields_of(v.details)),
                    )
                    &&& route is Sets ==> crate::sets::set_views(final(self).sets.details@)
                        == crate::sets::set_views(old(self).sets.details@).insert(
                        v.id@,
                        crate::sets::set_details_from(v.id@, fields_of(v.details)),
                    )
                    &&& route is List ==> object_views(final(self).list_objects.details@)
                        == object_views(old(self).list_objects.details@).insert(
                        v.id@,
                        object_details_from(v.id@, fields_of(v.details)),
                    )
                    &&& (route is SetMeta && v.details is None) ==> final(self).set_meta == old(self).set_meta
                    &&& route is SetMeta ==> (v.details matches Some(f) ==> final(self).set_meta.name@ == crate::fields::text_of(f@.get("name"@)) && texts(
                        final(self).set_meta.set_of@,
                    ) == crate::fields::list_texts(f@.get("setOf"@)))
                    &&& texts(final(self).spaces.order@) == texts(old(self).spaces.order@)
                    &&& texts(final(self).sets.order@) == texts(old(self).sets.order@)
                    &&& texts(final(self).list_objects.order@) == texts(old(self).list_objects.order@)
                    &&& !(route is Spaces) ==> final(self).spaces == old(self).spaces
                    &&& !(route is Sets) ==> final(self).sets == old(self).sets
                    &&& !(route is List) ==> final(self).list_objects == old(self).list_objects
                    &&& !(route is SetMeta) ==> final(self).set_meta == old(self).set_meta
                    &&& final(self).set_meta.views == old(self).set_meta.views
                    &&& final(self).set_meta.id == old(self).set_meta.id
                    &&& final(self).set_meta.active_view_id == old(self).set_meta.active_view_id
                },
                Message::DetailsAmend(v) => {
                    let route = details_route(texts(v.sub_ids@), context_id@, old(self).set_meta.id@);
                    &&& (route is Spaces && old(self).spaces.details@.contains_key(v.id@))
                        ==> crate::spaces::space_views(final(self).spaces.details@)
                        == crate::spaces::space_views(old(self).spaces.details@).insert(
                        v.id@,
                        crate::spaces::amend_space(old(self).spaces.details@[v.id@]@, v.details@),
                    )
                    &&& (route is Sets && old(self).sets.details@.contains_key(v.id@))
                        ==> crate::sets::set_views(final(self).sets.details@)
                        == crate::sets::set_views(old(self).sets.details@).insert(
                        v.id@,
                        crate::sets::amend_set(old(self).sets.details@[v.id@]@, v.details@),
                    )
                    &&& (route is List && old(self).list_objects.details@.contains_key(v.id@))
                        ==> object_views(final(self).list_objects.details@) == object_views(
                        old(self).list_objects.details@,
                    ).insert(
                        v.id@,
                        amend_object(old(self).list_objects.details@[v.id@]@, v.details@),
                    )
                    &&& route is SetMeta ==> (final(self).set_meta.name@, texts(
                        final(self).set_meta.set_of@,
                    )) == crate::set_meta::amend_set_meta(
                        old(self).set_meta.name@,
                        texts(old(self).set_meta.set_of@),
                        v.details@,
                    )
                    &&& texts(final(self).spaces.order@) == texts(old(self).spaces.order@)
                    &&& texts(final(self).sets.order@) == texts(old(self).sets.order@)
                    &&& texts(final(self).list_objects.order@) == texts(old(self).list_objects.order@)
                    &&& !(route is Spaces && old(self).spaces.details@.contains_key(v.id@)) ==> final(self).spaces.details@ == old(self).spaces.details@
                    &&& !(route is Sets && old(self).sets.details@.contains_key(v.id@)) ==> final(self).sets.details@ == old(self).sets.details@
                    &&& !(route is List && old(self).list_objects.details@.contains_key(v.id@))
                        ==> final(self).list_objects.details@ == old(self).list_objects.details@
                    &&& !(route is SetMeta) ==> final(self).set_meta == old(self).set_meta
                    &&& final(self).set_meta.views == old(self).set_meta.views
                    &&& final(self).set_meta.id == old(self).set_meta.id
                    &&& final(self).set_meta.active_view_id == old(self).set_meta.active_view_id
                },
                Message::SubscriptionAdd(v) => {
                    let route = sub_route(v.sub_id@);
                    &&& route is Spaces ==> texts(final(self).spaces.order@) == inserted_in_order(
                        texts(old(self).spaces.order@),
                        v.id@,
                        v.after_id@,
                    )
                    &&& route is Sets ==> texts(final(self).sets.order@) == inserted_in_order(
                        texts(old(self).sets.order@),
                        v.id@,
                        v.after_id@,
                    )
                    &&& route is List ==> texts(final(self).list_objects.order@)
                        == inserted_in_order(
                        texts(old(self).list_objects.order@),
                        v.id@,
                        v.after_id@,
                    )
                    &&& !(route is Spaces) ==> final(self).spaces.order == old(self).spaces.order
                    &&& !(route is Sets) ==> final(self).sets.order == old(self).sets.order
                    &&& !(route is List) ==> final(self).list_objects.order == old(self).list_objects.order
                    &&& final(self).spaces.details@ == old(self).spaces.details@
                    &&& final(self).sets.details@ == old(self).sets.details@
                    &&& final(self).list_objects.details == old(self).list_objects.details
                    &&& final(self).set_meta == old(self).set_meta
                },
                Message::SubscriptionRemove(v) => {
                    let route = sub_route(v.sub_id@);
                    &&& route is Spaces ==> texts(final(self).spaces.order@) == without(
                        texts(old(self).spaces.order@),
                        v.id@,
                    ) && final(self).spaces.details@ == old(self).spaces.details@.remove(v.id@)
                    &&& route is Sets ==> texts(final(self).sets.order@) == without(
                        texts(old(self).sets.order@),
                        v.id@,
                    ) && final(self).sets.details@ == old(self).sets.details@.remove(v.id@)
                    &&& route is List ==> texts(final(self).list_objects.order@) == without(
                        texts(old(self).list_objects.order@),
                        v.id@,
                    ) && final(self).list_objects.details@ == old(self).list_objects.details@.remove(v.id@)
                    &&& !(route is Spaces) ==> final(self).spaces == old(self).spaces
                    &&& !(route is Sets) ==> final(self).sets == old(self).sets
                    &&& !(route is List) ==> final(self).list_objects == old(self).list_objects
                    &&& final(self).set_meta == old(self).set_meta
                },
                Message::ViewSet(_) | Message::ViewDelete(_) | Message::ViewUpdate(_) | Message::ViewOrder(
                    _,
                ) => {
                    &&& final(self).spaces == old(self).spaces
                    &&& final(self).sets == old(self).sets
                    &&& final(self).list_objects == old(self).list_objects
                },
                Message::Other => {
                    &&& final(self).spaces == old(self).spaces
                    &&& final(self).sets == old(self).sets
                    &&& final(self).list_objects == old(self).list_objects
                    &&& final(self).set_meta == old(self).set_meta
                },
            },
            msg matches Message::ViewSet(v) ==> final(self).set_meta.views@ == match v.view {
                None => old(self).set_meta.views@,
                Some(nv) => {
                    let k = crate::text::index_of(
                        crate::set_meta::view_ids(old(self).set_meta.views@),
                        v.view_id@,
                    );
                    if k == -1 {
                        old(self).set_meta.views@.push(nv)
                    } else {
                        old(self).set_meta.views@.update(k, nv)
                    }
                },
            },
            msg matches Message::ViewUpdate(v) ==> crate::set_meta::view_updated(
                old(self).set_meta.views@,
                final(self).set_meta.views@,
                v,
            ),
            msg matches Message::ViewDelete(v) ==> final(self).set_meta.views@
                == crate::set_meta::drop_views(old(self).set_meta.views@, v.view_id@),
            (msg is ViewSet || msg is ViewDelete || msg is ViewUpdate || msg is ViewOrder) ==> {
                &&& final(self).set_meta.id == old(self).set_meta.id
                &&& final(self).set_meta.name == old(self).set_meta.name
                &&& final(self).set_meta.set_of == old(self).set_meta.set_of
            },
            (msg is ViewSet || msg is ViewUpdate || msg is ViewOrder) ==> final(self).set_meta.active_view_id
                == old(self).set_meta.active_view_id,
            msg matches Message::ViewDelete(v) ==> if old(self).set_meta.active_view_id@ == v.view_id@ {
                final(self).set_meta.active_view_id@ == if final(self).set_meta.views@.len() == 0 {
                    Seq::<char>::empty()
                } else {
                    final(self).set_meta.views@[0].id@
                }
            } else {
                final(self).set_meta.active_view_id == old(self).set_meta.active_view_id
            },
            msg matches Message::ViewOrder(v) ==> final(self).set_meta.views@
                == crate::set_meta::ordered_views(old(self).set_meta.views@, texts(v.view_ids@)),
    {
        match msg {
            Message::DetailsSet(v) => match self.route_details(&v.sub_ids, context_id) {
                Route::Spaces => self.spaces.handle_set(v),
                Route::Sets => self.sets.handle_set(v),
                Route::List => self.list_objects.handle_set(v),
                Route::SetMeta => self.set_meta.handle_set(v),
                Route::Ignore => {},
            },
            Message::DetailsAmend(v) => match self.route_details(&v.sub_ids, context_id) {
                Route::Spaces => self.spaces.handle_amend(v),
                Route::Sets => self.sets.handle_amend(v),
                Route::List => self.list_objects.handle_amend(v),
                Route::SetMeta => self.set_meta.handle_amend(v),
                Route::Ignore => {},
            },
            Message::SubscriptionAdd(v) => match Self::route_sub(v.sub_id.as_str()) {
                Route::Spaces => self.spaces.handle_add(v),
                Route::Sets => self.sets.handle_add(v),
                Route::List => insert_ordered(&mut self.list_objects.order, v.id, v.after_id.as_str()),
                _ => {},
            },
            Message::SubscriptionRemove(v) => match Self::route_sub(v.sub_id.as_str()) {
                Route::Spaces => self.spaces.handle_remove(v),
                Route::Sets => self.sets.handle_remove(v),
                Route::List => {
                    retain_other(&mut self.list_objects.order, v.id.as_str());
                    self.list_objects.details.remove(v.id.as_str());
                },
                _ => {},
            },
            Message::ViewSet(v) => self.set_meta.handle_view_set(v),
            Message::ViewDelete(v) => self.set_meta.handle_view_delete(v),
            Message::ViewUpdate(v) => self.set_meta.handle_view_update(v),
            Message::ViewOrder(v) => self.set_meta.handle_view_order(v),
            Message::Other => {},
        }
    }
}

} // verus!
