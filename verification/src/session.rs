//! Reading the account that the engine shows while an account is recovered.
use vstd::prelude::*;
use crate::invite::opt_text;

verus! {

/// A message of an engine event, as far as account recovery reads it.
#[derive(Clone, PartialEq, Debug)]
pub enum EngineMessage {
    /// An account was shown, with its identifier when the account is given.
    AccountShow(Option<String>),
    /// Any other message.
    Other,
}

/// The identifier of the first shown account among `msgs` that is given.
pub open spec fn first_shown_in(msgs: Seq<EngineMessage>) -> Option<Seq<char>>
    decreases msgs.len(),
{
    if msgs.len() == 0 {
        None
    } else {
        match msgs[0] {
            EngineMessage::AccountShow(Some(id)) => Some(id@),
            _ => first_shown_in(msgs.drop_first()),
        }
    }
}

/// The identifier of the first shown account that is given, in the events'
/// order and, within an event, in its messages' order.
pub open spec fn first_shown_account(events: Seq<Vec<EngineMessage>>) -> Option<Seq<char>>
    decreases events.len(),
{
    if events.len() == 0 {
        None
    } else {
        match first_shown_in(events[0]@) {
            Some(id) => Some(id),
            None => first_shown_account(events.drop_first()),
        }
    }
}

/// Whether a message shows an account that is given.
pub open spec fn shows_account(m: EngineMessage) -> bool {
    m matches EngineMessage::AccountShow(Some(_))
}

/// The identifier of the account that a message shows (when it shows one).
pub open spec fn shown_id(m: EngineMessage) -> Seq<char> {
    match m {
        EngineMessage::AccountShow(Some(id)) => id@,
        _ => Seq::empty(),
    }
}

/// Law: within one event, the account read is the one of the first message
/// that shows a given account, and none when no message does.
pub proof fn law_first_shown_in(msgs: Seq<EngineMessage>)
    ensures
        forall|j: int|
            0 <= j < msgs.len() && shows_account(#[trigger] msgs[j]) && (forall|q: int|
                0 <= q < j ==> !shows_account(msgs[q])) ==> first_shown_in(msgs) == Some(shown_id(msgs[j])),
        (forall|j: int| 0 <= j < msgs.len() ==> !shows_account(msgs[j])) ==> first_shown_in(msgs) is None,
    decreases msgs.len(),
{
    if msgs.len() > 0 {
        let rest = msgs.drop_first();
        law_first_shown_in(rest);
        if shows_account(msgs[0]) {
            assert forall|j: int|
                0 <= j < msgs.len() && shows_account(#[trigger] msgs[j]) && (forall|q: int|
                    0 <= q < j ==> !shows_account(msgs[q])) implies j == 0 by {
                if j > 0 {
                    assert(!shows_account(msgs[0]));
                }
            }
        } else {
            assert forall|j: int|
                0 <= j < msgs.len() && shows_account(#[trigger] msgs[j]) && (forall|q: int|
                    0 <= q < j ==> !shows_account(msgs[q])) implies first_shown_in(msgs) == Some(
                shown_id(msgs[j]),
            ) by {
                assert(j > 0);
                assert(rest[j - 1] == msgs[j]);
                assert forall|q: int| 0 <= q < j - 1 implies !shows_account(rest[q]) by {
                    assert(rest[q] == msgs[q + 1]);
                }
            }
            if forall|j: int| 0 <= j < msgs.len() ==> !shows_account(msgs[j]) {
                assert forall|j: int| 0 <= j < rest.len() implies !shows_account(rest[j]) by {
                    assert(rest[j] == msgs[j + 1]);
                }
            }
        }
    }
}

/// Law: over the events, the account read is the one of the first message,
/// in the events' order and then the messages' order, that shows a given
/// account; none when no message does.
pub proof fn law_first_shown_account(events: Seq<Vec<EngineMessage>>)
    ensures
        forall|i: int, j: int|
            0 <= i < events.len() && 0 <= j < events[i]@.len() && shows_account(
                #[trigger] events[i]@[j],
            ) && (forall|q: int, r: int|
                0 <= q < i && 0 <= r < events[q]@.len() ==> !shows_account(events[q]@[r])) && (forall|
                r: int,
            | 0 <= r < j ==> !shows_account(events[i]@[r])) ==> first_shown_account(events) == Some(
                shown_id(events[i]@[j]),
            ),
        (forall|q: int, r: int|
            0 <= q < events.len() && 0 <= r < events[q]@.len() ==> !shows_account(events[q]@[r]))
            ==> first_shown_account(events) is None,
    decreases events.len(),
{
    if events.len() > 0 {
        let rest = events.drop_first();
        law_first_shown_account(rest);
        law_first_shown_in(events[0]@);
        assert forall|i: int, j: int|
            0 <= i < events.len() && 0 <= j < events[i]@.len() && shows_account(
                #[trigger] events[i]@[j],
            ) && (forall|q: int, r: int|
                0 <= q < i && 0 <= r < events[q]@.len() ==> !shows_account(events[q]@[r])) && (forall|
                r: int,
            | 0 <= r < j ==> !shows_account(events[i]@[r])) implies first_shown_account(events)
            == Some(shown_id(events[i]@[j])) by {
            if i == 0 {
            } else {
                assert forall|r: int| 0 <= r < events[0]@.len() implies !shows_account(
                    events[0]@[r],
                ) by {}
                assert(rest[i - 1] == events[i]);
                assert forall|q: int, r: int|
                    0 <= q < i - 1 && 0 <= r < rest[q]@.len() implies !shows_account(
                    rest[q]@[r],
                ) by {
                    assert(rest[q] == events[q + 1]);
                }
            }
        }
        if forall|q: int, r: int|
            0 <= q < events.len() && 0 <= r < events[q]@.len() ==> !shows_account(events[q]@[r]) {
            assert forall|r: int| 0 <= r < events[0]@.len() implies !shows_account(events[0]@[r]) by {}
            assert forall|q: int, r: int|
                0 <= q < rest.len() && 0 <= r < rest[q]@.len() implies !shows_account(rest[q]@[r]) by {
                assert(rest[q] == events[q + 1]);
            }
        }
    }
}

proof fn lemma_first_shown_in_skip(msgs: Seq<EngineMessage>, j: int)
    requires
        0 <= j < msgs.len(),
        !(msgs[j] matches EngineMessage::AccountShow(Some(_))),
    ensures
        first_shown_in(msgs.skip(j)) == first_shown_in(msgs.skip(j + 1)),
{
    assert(msgs.skip(j).drop_first() =~= msgs.skip(j + 1));
}

proof fn lemma_first_shown_account_skip(events: Seq<Vec<EngineMessage>>, i: int)
    requires
        0 <= i < events.len(),
        first_shown_in(events[i]@) is None,
    ensures
        first_shown_account(events.skip(i)) == first_shown_account(events.skip(i + 1)),
{
    assert(events.skip(i).drop_first() =~= events.skip(i + 1));
}

/// The account found in one event's messages (see `first_shown_in`).
fn shown_in(msgs: &Vec<EngineMessage>) -> (r: Option<String>)
    ensures
        opt_text(r) == first_shown_in(msgs@),
{
    let mut j: usize = 0;
    assert(msgs@.skip(0) =~= msgs@);
    while j < msgs.len()
        invariant
            j <= msgs.len(),
            first_shown_in(msgs@.skip(j as int)) == first_shown_in(msgs@),
        decreases msgs.len() - j,
    {
        match &msgs[j] {
            EngineMessage::AccountShow(Some(id)) => {
                assert(msgs@.skip(j as int)[0] == msgs@[j as int]);
                return Some(id.clone());
            },
            _ => {
                proof {
                    lemma_first_shown_in_skip(msgs@, j as int);
                }
            },
        }
        j = j + 1;
    }
    assert(msgs@.skip(j as int) =~= Seq::<EngineMessage>::empty());
    None
}

/// The account that recovery selects: the first shown account that is
/// given, over the events received so far; none when no event showed one.
pub fn shown_account(events: &Vec<Vec<EngineMessage>>) -> (r: Option<String>)
    ensures
        opt_text(r) == first_shown_account(events@),
{
    let mut i: usize = 0;
    assert(events@.skip(0) =~= events@);
    while i < events.len()
        invariant
            i <= events.len(),
            first_shown_account(events@.skip(i as int)) == first_shown_account(events@),
        decreases events.len() - i,
    {
        let found = shown_in(&events[i]);
        assert(events@.skip(i as int)[0] == events@[i as int]);
        match found {
            Some(id) => {
                return Some(id);
            },
            None => {
                proof {
                    lemma_first_shown_account_skip(events@, i as int);
                }
            },
        }
        i = i + 1;
    }
    assert(events@.skip(i as int) =~= Seq::<Vec<EngineMessage>>::empty());
    None
}

} // verus!
