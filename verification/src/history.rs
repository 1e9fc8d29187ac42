//! The navigation history of the application: the current route, the routes
//! one can go back to, and those one can go forward to again.
use vstd::prelude::*;
use crate::text::{has_prefix, same_text, seq_has_prefix, texts};

verus! {

/// The navigation state that is kept across restarts.
#[derive(Clone, PartialEq, Debug)]
pub struct PersistentState {
    pub current: String,
    pub history: Vec<String>,
    pub future: Vec<String>,
}

/// The routes of a navigation state.
pub struct HistoryView {
    pub current: Seq<char>,
    pub history: Seq<Seq<char>>,
    pub future: Seq<Seq<char>>,
}

impl View for PersistentState {
    type V = HistoryView;

    open spec fn view(&self) -> HistoryView {
        HistoryView {
            current: self.current@,
            history: texts(self.history@),
            future: texts(self.future@),
        }
    }
}

/// The state after going back: the last route of the history becomes
/// current, and the current route is the next one to go forward to.
pub open spec fn went_back(v: HistoryView) -> HistoryView {
    if v.history.len() == 0 {
        v
    } else {
        HistoryView {
            current: v.history.last(),
            history: v.history.drop_last(),
            future: v.future.push(v.current),
        }
    }
}

/// The state after going forward: the reverse of going back.
pub open spec fn went_forward(v: HistoryView) -> HistoryView {
    if v.future.len() == 0 {
        v
    } else {
        HistoryView {
            current: v.future.last(),
            history: v.history.push(v.current),
            future: v.future.drop_last(),
        }
    }
}

/// The state after navigating to `route`: nothing changes when it is the
/// current route; otherwise the current route goes to the history and the
/// routes to go forward to are forgotten.
pub open spec fn pushed(v: HistoryView, route: Seq<char>) -> HistoryView {
    if v.current == route {
        v
    } else {
        HistoryView { current: route, history: v.history.push(v.current), future: Seq::empty() }
    }
}

/// A route is external when it is an `http://` or `https://` address.
pub open spec fn is_external(url: Seq<char>) -> bool {
    seq_has_prefix(url, "http://"@) || seq_has_prefix(url, "https://"@)
}

/// The navigation history, under an optional path prefix.
#[derive(Clone, PartialEq, Debug)]
pub struct PersistentHistory {
    pub state: PersistentState,
    pub base_path: Option<String>,
}

impl PersistentHistory {
    /// A history that starts from the stored state if there is one, and at
    /// `path` with nothing behind or ahead otherwise.
    pub fn with_initial_path(stored: Option<PersistentState>, path: String) -> (r: Self)
        ensures
            r.base_path is None,
            match stored {
                Some(s) => r.state == s,
                None => r.state@ == (HistoryView {
                    current: path@,
                    history: Seq::empty(),
                    future: Seq::empty(),
                }),
            },
    {
        let state = match stored {
            Some(s) => s,
            None => {
                let st = PersistentState { current: path, history: Vec::new(), future: Vec::new() };
                assert(st@.history =~= Seq::<Seq<char>>::empty());
                assert(st@.future =~= Seq::<Seq<char>>::empty());
                st
            },
        };
        PersistentHistory { state, base_path: None }
    }

    /// The same history under the path prefix `prefix`.
    pub fn with_prefix(self, prefix: String) -> (r: Self)
        ensures
            r.state == self.state,
            r.base_path == Some(prefix),
    {
        let mut h = self;
        h.base_path = Some(prefix);
        h
    }

    /// The path prefix, if any.
    pub fn current_prefix(&self) -> (r: Option<String>)
        ensures
            r == self.base_path,
    {
        match &self.base_path {
            Some(p) => Some(p.clone()),
            None => None,
        }
    }

    /// The current route.
    pub fn current_route(&self) -> (r: String)
        ensures
            r@ == self.state@.current,
    {
        self.state.current.clone()
    }

    /// Whether there is a route to go back to.
    pub fn can_go_back(&self) -> (r: bool)
        ensures
            r == (self.state@.history.len() > 0),
    {
        !self.state.history.is_empty()
    }

    /// Goes back one route, if there is one.
    pub fn go_back(&mut self)
        ensures
            final(self).state@ == went_back(old(self).state@),
            final(self).base_path == old(self).base_path,
    {
        let ghost v = self.state@;
        match self.state.history.pop() {
            Some(last) => {
                let mut old_route = last;
                std::mem::swap(&mut self.state.current, &mut old_route);
                self.state.future.push(old_route);
                assert(self.state@.history =~= v.history.drop_last());
                assert(self.state@.future =~= v.future.push(v.current));
            },
            None => {},
        }
    }

    /// Whether there is a route to go forward to.
    pub fn can_go_forward(&self) -> (r: bool)
        ensures
            r == (self.state@.future.len() > 0),
    {
        !self.state.future.is_empty()
    }

    /// Goes forward one route, if there is one.
    pub fn go_forward(&mut self)
        ensures
            final(self).state@ == went_forward(old(self).state@),
            final(self).base_path == old(self).base_path,
    {
        let ghost v = self.state@;
        match self.state.future.pop() {
            Some(next) => {
                let mut old_route = next;
                std::mem::swap(&mut self.state.current, &mut old_route);
                self.state.history.push(old_route);
                assert(self.state@.future =~= v.future.drop_last());
                assert(self.state@.history =~= v.history.push(v.current));
            },
            None => {},
        }
    }

    /// Navigates to `new` (nothing happens when it is the current route).
    pub fn push(&mut self, new: String)
        ensures
            final(self).state@ == pushed(old(self).state@, new@),
            final(self).base_path == old(self).base_path,
    {
        if same_text(self.state.current.as_str(), new.as_str()) {
            return;
        }
        let ghost v = self.state@;
        let mut old_route = new;
        std::mem::swap(&mut self.state.current, &mut old_route);
        self.state.history.push(old_route);
        self.state.future.clear();
        assert(self.state@.history =~= v.history.push(v.current));
        assert(self.state@.future =~= Seq::<Seq<char>>::empty());
    }

    /// Replaces the current route by `path`, keeping the rest.
    pub fn replace(&mut self, path: String)
        ensures
            final(self).state@ == (HistoryView { current: path@, ..old(self).state@ }),
            final(self).base_path == old(self).base_path,
    {
        self.state.current = path;
    }

    /// Whether a route leaves the application (a web address).
    pub fn external(&self, url: &str) -> (r: bool)
        ensures
            r == is_external(url@),
    {
        has_prefix(url, "http://") || has_prefix(url, "https://")
    }

    /// Whether links prevent the default browser action: never.
    pub fn include_prevent_default(&self) -> (r: bool)
        ensures
            r == false,
    {
        false
    }
}

/// Law: going back and then forward again gives the same state.
pub proof fn law_back_then_forward(v: HistoryView)
    requires
        v.history.len() > 0,
    ensures
        went_forward(went_back(v)) == v,
{
    assert(went_forward(went_back(v)).history =~= v.history);
    assert(went_forward(went_back(v)).future =~= v.future);
}

/// Law: going forward and then back again gives the same state.
pub proof fn law_forward_then_back(v: HistoryView)
    requires
        v.future.len() > 0,
    ensures
        went_back(went_forward(v)) == v,
{
    assert(went_back(went_forward(v)).history =~= v.history);
    assert(went_back(went_forward(v)).future =~= v.future);
}

/// Law: after navigating to a new route, going back returns to the route
/// and history from before, with only the new route to go forward to.
pub proof fn law_push_then_back(v: HistoryView, route: Seq<char>)
    requires
        route != v.current,
    ensures
        went_back(pushed(v, route)).current == v.current,
        went_back(pushed(v, route)).history == v.history,
        went_back(pushed(v, route)).future == seq![route],
{
    assert(went_back(pushed(v, route)).history =~= v.history);
    assert(went_back(pushed(v, route)).future =~= seq![route]);
}

/// Law: navigating to the current route changes nothing.
pub proof fn law_push_current_is_noop(v: HistoryView)
    ensures
        pushed(v, v.current) == v,
{
}

/// Law: navigating somewhere new leaves nothing to go forward to.
pub proof fn law_push_clears_future(v: HistoryView, route: Seq<char>)
    requires
        route != v.current,
    ensures
        pushed(v, route).future.len() == 0,
        pushed(v, route).history.len() == v.history.len() + 1,
{
}

} // verus!
