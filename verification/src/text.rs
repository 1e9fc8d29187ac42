//! Small text operations on identifiers and keys, stated over `Seq<char>`.
use vstd::prelude::*;

verus! {

/// `p` is a prefix of `s`.
pub open spec fn seq_has_prefix(s: Seq<char>, p: Seq<char>) -> bool {
    p.len() <= s.len() && s.subrange(0, p.len() as int) == p
}

/// Whether `s` starts with `prefix` (character by character).
pub fn has_prefix(s: &str, prefix: &str) -> (r: bool)
    ensures
        r == seq_has_prefix(s@, prefix@),
{
    let n = s.unicode_len();
    let m = prefix.unicode_len();
    if m > n {
        return false;
    }
    let mut i: usize = 0;
    while i < m
        invariant
            n == s@.len(),
            m == prefix@.len(),
            m <= n,
            i <= m,
            forall|j: int| 0 <= j < i ==> s@[j] == prefix@[j],
        decreases m - i,
    {
        if s.get_char(i) != prefix.get_char(i) {
            assert(s@.subrange(0, m as int)[i as int] != prefix@[i as int]);
            return false;
        }
        i = i + 1;
    }
    assert(s@.subrange(0, m as int) =~= prefix@);
    true
}

/// Whether two texts are equal.
pub fn same_text(a: &str, b: &str) -> (r: bool)
    ensures
        r == (a@ == b@),
{
    let n = a.unicode_len();
    let m = b.unicode_len();
    if n != m {
        return false;
    }
    let mut i: usize = 0;
    while i < n
        invariant
            n == a@.len(),
            m == b@.len(),
            n == m,
            i <= n,
            forall|j: int| 0 <= j < i ==> a@[j] == b@[j],
        decreases n - i,
    {
        if a.get_char(i) != b.get_char(i) {
            return false;
        }
        i = i + 1;
    }
    assert(a@ =~= b@);
    true
}

/// A copy of a text as an owned `String`.
pub fn to_owned_text(s: &str) -> (r: String)
    ensures
        r@ == s@,
{
    s.to_owned()
}

/// The views of a sequence of strings.
pub open spec fn texts(s: Seq<String>) -> Seq<Seq<char>> {
    s.map_values(|x: String| x@)
}

/// Index of the first occurrence of `x` in `s` at or after `i`, or -1.
pub open spec fn index_from(s: Seq<Seq<char>>, x: Seq<char>, i: int) -> int
    decreases s.len() - i,
{
    if i < 0 || i >= s.len() {
        -1
    } else if s[i] == x {
        i
    } else {
        index_from(s, x, i + 1)
    }
}

/// Index of the first occurrence of `x` in `s`, or -1 when `x` does not occur.
pub open spec fn index_of(s: Seq<Seq<char>>, x: Seq<char>) -> int {
    index_from(s, x, 0)
}

/// Facts about `index_from`: it is -1 or an index holding `x`, with no `x` before it.
pub proof fn lemma_index_from(s: Seq<Seq<char>>, x: Seq<char>, i: int)
    requires
        0 <= i,
    ensures
        index_from(s, x, i) == -1 || (i <= index_from(s, x, i) < s.len() && s[index_from(
            s,
            x,
            i,
        )] == x),
        forall|j: int|
            i <= j < s.len() && (index_from(s, x, i) == -1 || j < index_from(s, x, i)) ==> s[j]
                != x,
    decreases s.len() - i,
{
    if i < s.len() && s[i] != x {
        lemma_index_from(s, x, i + 1);
    }
}

/// Facts about `index_of`.
pub proof fn lemma_index_of(s: Seq<Seq<char>>, x: Seq<char>)
    ensures
        index_of(s, x) == -1 || (0 <= index_of(s, x) < s.len() && s[index_of(s, x)] == x),
        forall|j: int|
            0 <= j < s.len() && (index_of(s, x) == -1 || j < index_of(s, x)) ==> s[j] != x,
        index_of(s, x) == -1 <==> !s.contains(x),
{
    lemma_index_from(s, x, 0);
    if index_of(s, x) != -1 {
        assert(s.contains(x));
    }
}

/// `index_of` is characterised by the first position holding `x`.
pub proof fn lemma_index_of_is(s: Seq<Seq<char>>, x: Seq<char>, k: int)
    requires
        k == -1 ==> forall|j: int| 0 <= j < s.len() ==> s[j] != x,
        k != -1 ==> 0 <= k < s.len() && s[k] == x && forall|j: int| 0 <= j < k ==> s[j] != x,
    ensures
        index_of(s, x) == k,
{
    lemma_index_of(s, x);
    let r = index_of(s, x);
    if r != k {
        if r == -1 {
            assert(s[k] != x);
        } else if k == -1 {
            assert(s[r] != x);
        } else if r < k {
            assert(s[r] != x);
        } else {
            assert(s[k] != x);
        }
    }
}

/// Finds the first string of `v` equal to `x`.
pub fn find_text(v: &Vec<String>, x: &str) -> (r: Option<usize>)
    ensures
        match r {
            Some(i) => index_of(texts(v@), x@) == i as int,
            None => index_of(texts(v@), x@) == -1,
        },
{
    let mut i: usize = 0;
    while i < v.len()
        invariant
            i <= v.len(),
            forall|j: int| 0 <= j < i ==> v@[j]@ != x@,
        decreases v.len() - i,
    {
        if same_text(v[i].as_str(), x) {
            proof {
                lemma_index_of_is(texts(v@), x@, i as int);
            }
            return Some(i);
        }
        i = i + 1;
    }
    proof {
        lemma_index_of_is(texts(v@), x@, -1);
    }
    None
}

/// Whether `v` holds a string equal to `x`.
pub fn contains_text(v: &Vec<String>, x: &str) -> (r: bool)
    ensures
        r == texts(v@).contains(x@),
{
    let f = find_text(v, x);
    proof {
        lemma_index_of(texts(v@), x@);
    }
    f.is_some()
}

} // verus!
