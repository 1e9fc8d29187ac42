//! The ordered lists of object identifiers that subscriptions keep.
use vstd::prelude::*;
use crate::text::{texts, index_of, lemma_index_of, find_text, same_text};

verus! {

/// `s` with every occurrence of `x` taken out, the rest in order.
pub open spec fn without(s: Seq<Seq<char>>, x: Seq<char>) -> Seq<Seq<char>>
    decreases s.len(),
{
    if s.len() == 0 {
        s
    } else {
        let r = without(s.drop_last(), x);
        if s.last() == x {
            r
        } else {
            r.push(s.last())
        }
    }
}

/// Where an identifier goes in `rest` when it is placed after `after`:
/// first when `after` is empty, right after the first `after`, or last
/// when `after` does not occur.
pub open spec fn insert_position(rest: Seq<Seq<char>>, after: Seq<char>) -> int {
    if after.len() == 0 {
        0
    } else if index_of(rest, after) == -1 {
        rest.len() as int
    } else {
        index_of(rest, after) + 1
    }
}

/// The order after `id` is (re)placed after `after`: any earlier place of
/// `id` is dropped, then `id` is inserted at its new place.
pub open spec fn inserted_in_order(order: Seq<Seq<char>>, id: Seq<char>, after: Seq<char>) -> Seq<
    Seq<char>,
> {
    let rest = without(order, id);
    rest.insert(insert_position(rest, after), id)
}

/// What `without` keeps is in the original sequence and is not `x`.
pub proof fn lemma_without_contains(s: Seq<Seq<char>>, x: Seq<char>, y: Seq<char>)
    ensures
        without(s, x).contains(y) <==> (s.contains(y) && y != x),
        without(s, x).len() <= s.len(),
    decreases s.len(),
{
    if s.len() > 0 {
        let d = s.drop_last();
        lemma_without_contains(d, x, y);
        let r = without(d, x);
        let w = without(s, x);
        assert(forall|k: int| 0 <= k < r.len() ==> w[k] == r[k]);
        if s.contains(y) && y != x {
            let i = choose|i: int| 0 <= i < s.len() && s[i] == y;
            if i < s.len() - 1 {
                assert(d[i] == y);
                assert(d.contains(y));
                let k = choose|k: int| 0 <= k < r.len() && r[k] == y;
                assert(w[k] == y);
            } else {
                assert(s.last() == y);
                assert(w[r.len() as int] == y);
            }
        }
        if w.contains(y) {
            let i = choose|i: int| 0 <= i < w.len() && w[i] == y;
            if i < r.len() {
                assert(r[i] == y);
                assert(r.contains(y));
                let k = choose|k: int| 0 <= k < d.len() && d[k] == y;
                assert(s[k] == y);
            } else {
                assert(s.last() != x);
                assert(s[s.len() - 1] == y);
            }
        }
    }
}

/// Taking out an element that does not occur changes nothing.
pub proof fn lemma_without_absent(s: Seq<Seq<char>>, x: Seq<char>)
    requires
        !s.contains(x),
    ensures
        without(s, x) == s,
    decreases s.len(),
{
    if s.len() > 0 {
        if s.drop_last().contains(x) {
            let i = choose|i: int| 0 <= i < s.drop_last().len() && s.drop_last()[i] == x;
            assert(s[i] == x);
        }
        lemma_without_absent(s.drop_last(), x);
        assert(s.last() != x);
        assert(s.drop_last().push(s.last()) =~= s);
    }
}

/// `without` distributes over concatenation.
pub proof fn lemma_without_concat(a: Seq<Seq<char>>, b: Seq<Seq<char>>, x: Seq<char>)
    ensures
        without(a + b, x) == without(a, x) + without(b, x),
    decreases b.len(),
{
    if b.len() == 0 {
        assert(a + b =~= a);
        assert(without(a, x) + without(b, x) =~= without(a, x));
    } else {
        lemma_without_concat(a, b.drop_last(), x);
        assert((a + b).drop_last() =~= a + b.drop_last());
        assert((a + b).last() == b.last());
        if b.last() == x {
        } else {
            assert(without(a, x) + without(b.drop_last(), x).push(b.last()) =~= (without(a, x)
                + without(b.drop_last(), x)).push(b.last()));
        }
    }
}

/// Taking `x` out of a sequence into which it was inserted once gives the
/// sequence back.
pub proof fn lemma_without_insert(rest: Seq<Seq<char>>, p: int, x: Seq<char>)
    requires
        0 <= p <= rest.len(),
        !rest.contains(x),
    ensures
        without(rest.insert(p, x), x) == rest,
{
    let a = rest.take(p);
    let b = rest.skip(p);
    assert(rest.insert(p, x) =~= a + seq![x] + b);
    assert(rest =~= a + b);
    lemma_without_concat(a + seq![x], b, x);
    lemma_without_concat(a, seq![x], x);
    assert(seq![x].drop_last() =~= Seq::<Seq<char>>::empty());
    assert(without(Seq::<Seq<char>>::empty(), x) =~= Seq::<Seq<char>>::empty());
    assert(seq![x].last() == x);
    assert(without(seq![x], x) =~= Seq::<Seq<char>>::empty());
    if a.contains(x) {
        let i = choose|i: int| 0 <= i < a.len() && a[i] == x;
        assert(rest[i] == x);
    }
    if b.contains(x) {
        let i = choose|i: int| 0 <= i < b.len() && b[i] == x;
        assert(rest[p + i] == x);
    }
    lemma_without_absent(a, x);
    lemma_without_absent(b, x);
    assert(a + Seq::<Seq<char>>::empty() =~= a);
}

/// `without` keeps a sequence free of duplicates.
pub proof fn lemma_without_no_duplicates(s: Seq<Seq<char>>, x: Seq<char>)
    requires
        s.no_duplicates(),
    ensures
        without(s, x).no_duplicates(),
    decreases s.len(),
{
    if s.len() > 0 {
        assert(s.drop_last().no_duplicates()) by {
            assert forall|i: int, j: int|
                0 <= i < s.drop_last().len() && 0 <= j < s.drop_last().len() && i != j implies s.drop_last()[i]
                != s.drop_last()[j] by {
                assert(s[i] != s[j]);
            }
        }
        lemma_without_no_duplicates(s.drop_last(), x);
        let r = without(s.drop_last(), x);
        if s.last() != x {
            lemma_without_contains(s.drop_last(), x, s.last());
            if s.drop_last().contains(s.last()) {
                let i = choose|i: int|
                    0 <= i < s.drop_last().len() && s.drop_last()[i] == s.last();
                assert(s[i] == s[s.len() - 1]);
            }
            assert forall|i: int, j: int|
                0 <= i < r.push(s.last()).len() && 0 <= j < r.push(s.last()).len() && i
                    != j implies r.push(s.last())[i] != r.push(s.last())[j] by {
                if i == r.len() as int {
                    assert(r[j] != s.last()) by {
                        if r[j] == s.last() {
                            assert(r.contains(s.last()));
                        }
                    }
                } else if j == r.len() as int {
                    assert(r[i] != s.last()) by {
                        if r[i] == s.last() {
                            assert(r.contains(s.last()));
                        }
                    }
                }
            }
        }
    }
}

/// Places `id` in `order` right after `after_id` (first when `after_id` is
/// empty, last when it is not found), dropping any earlier place of `id`.
pub fn insert_ordered(order: &mut Vec<String>, id: String, after_id: &str)
    ensures
        texts(final(order)@) == inserted_in_order(texts(old(order)@), id@, after_id@),
{
    let ghost orig = texts(order@);
    retain_other(order, id.as_str());
    let ghost rest = texts(order@);
    proof {
        lemma_index_of(rest, after_id@);
        assert(rest.len() == order@.len());
    }
    let pos: usize = if after_id.unicode_len() == 0 {
        0
    } else {
        match find_text(order, after_id) {
            Some(i) => {
                assert(index_of(rest, after_id@) == i as int);
                assert(i < order.len());
                i + 1
            },
            None => order.len(),
        }
    };
    proof {
        lemma_index_of(rest, after_id@);
    }
    let ghost before = order@;
    order.insert(pos, id);
    assert(texts(order@) =~= rest.insert(pos as int, id@));
}

/// Drops every occurrence of `id` from `order`, keeping the rest in order.
pub fn retain_other(order: &mut Vec<String>, id: &str)
    ensures
        texts(final(order)@) == without(texts(old(order)@), id@),
{
    let ghost orig = order@;
    let mut rest: Vec<String> = Vec::new();
    std::mem::swap(&mut rest, order);
    let ghost mut j: int = 0;
    assert(rest@ =~= orig.skip(0));
    assert(texts(orig.take(0)) =~= Seq::<Seq<char>>::empty());
    while rest.len() > 0
        invariant
            0 <= j <= orig.len(),
            rest@ == orig.skip(j),
            texts(order@) == without(texts(orig.take(j)), id@),
        decreases rest.len(),
    {
        let ghost before = order@;
        assert(texts(orig.take(j + 1)).drop_last() =~= texts(orig.take(j)));
        assert(texts(orig.take(j + 1)).last() == orig[j]@);
        let e = rest.remove(0);
        if !same_text(e.as_str(), id) {
            order.push(e);
            assert(texts(order@) =~= texts(before).push(orig[j]@));
        }
        proof {
            assert(rest@ =~= orig.skip(j + 1));
            j = j + 1;
        }
    }
    assert(orig.take(j) =~= orig);
}

/// Law: after `insert_ordered`, the identifier occurs exactly once and the
/// other identifiers keep their relative order.
pub proof fn law_insert_ordered_places_once(order: Seq<Seq<char>>, id: Seq<char>, after: Seq<char>)
    ensures
        inserted_in_order(order, id, after).contains(id),
        without(inserted_in_order(order, id, after), id) == without(order, id),
{
    let rest = without(order, id);
    let p = insert_position(rest, after);
    lemma_without_contains(order, id, id);
    lemma_index_of(rest, after);
    assert(0 <= p <= rest.len());
    assert(rest.insert(p, id)[p] == id);
    lemma_without_insert(rest, p, id);
}

/// Law: receiving the same placement twice gives the same order as once.
pub proof fn law_insert_ordered_idempotent(order: Seq<Seq<char>>, id: Seq<char>, after: Seq<char>)
    ensures
        inserted_in_order(inserted_in_order(order, id, after), id, after) == inserted_in_order(
            order,
            id,
            after,
        ),
{
    law_insert_ordered_places_once(order, id, after);
}

/// Law: an order without duplicates stays without duplicates.
pub proof fn law_insert_ordered_no_duplicates(
    order: Seq<Seq<char>>,
    id: Seq<char>,
    after: Seq<char>,
)
    requires
        order.no_duplicates(),
    ensures
        inserted_in_order(order, id, after).no_duplicates(),
{
    let rest = without(order, id);
    let p = insert_position(rest, after);
    lemma_without_no_duplicates(order, id);
    lemma_without_contains(order, id, id);
    lemma_index_of(rest, after);
    let r = rest.insert(p, id);
    assert forall|i: int, j: int| 0 <= i < r.len() && 0 <= j < r.len() && i != j implies r[i]
        != r[j] by {
        if i == p {
            if j < p {
                assert(r[j] == rest[j]);
                assert(rest.contains(rest[j]));
            } else {
                assert(r[j] == rest[j - 1]);
                assert(rest.contains(rest[j - 1]));
            }
        } else if j == p {
            if i < p {
                assert(rest.contains(rest[i]));
            } else {
                assert(rest.contains(rest[i - 1]));
            }
        } else {
            let i0 = if i < p { i } else { i - 1 };
            let j0 = if j < p { j } else { j - 1 };
            assert(r[i] == rest[i0]);
            assert(r[j] == rest[j0]);
        }
    }
}

/// Law: after an identifier is dropped, it no longer occurs.
pub proof fn law_retain_other_drops(order: Seq<Seq<char>>, id: Seq<char>)
    ensures
        !without(order, id).contains(id),
{
    lemma_without_contains(order, id, id);
}

/// Law: dropping an identifier keeps exactly the other identifiers, in their
/// order: it is the filter of the order by "is not the identifier".
pub proof fn law_without_keeps_others_in_order(order: Seq<Seq<char>>, id: Seq<char>)
    ensures
        without(order, id) == order.filter(|y: Seq<char>| y != id),
    decreases order.len(),
{
    reveal(Seq::filter);
    if order.len() > 0 {
        law_without_keeps_others_in_order(order.drop_last(), id);
    }
}

/// Law: where a placed identifier goes. With no `after`, it goes first; when
/// `after` is another identifier of the order, it goes right after the first
/// `after`; otherwise it goes last.
pub proof fn law_insert_ordered_position(order: Seq<Seq<char>>, id: Seq<char>, after: Seq<char>)
    ensures
        ({
            let r = inserted_in_order(order, id, after);
            &&& r.len() == without(order, id).len() + 1
            &&& after.len() == 0 ==> r[0] == id
            &&& (after.len() != 0 && order.contains(after) && after != id) ==> exists|p: int|
                0 <= p && p + 1 < r.len() && #[trigger] r[p] == after && r[p + 1] == id && (forall|q: int|
                    0 <= q < p ==> r[q] != after)
            &&& (after.len() != 0 && !(order.contains(after) && after != id)) ==> r[r.len() - 1] == id
        }),
{
    let rest = without(order, id);
    lemma_without_contains(order, id, after);
    lemma_without_contains(order, id, id);
    lemma_index_of(rest, after);
    let p = insert_position(rest, after);
    let r = rest.insert(p, id);
    if after.len() != 0 && order.contains(after) && after != id {
        let k = index_of(rest, after);
        assert(r[k] == after);
        assert(r[k + 1] == id);
        assert forall|q: int| 0 <= q < k implies r[q] != after by {
            assert(r[q] == rest[q]);
        }
    }
}

} // verus!
