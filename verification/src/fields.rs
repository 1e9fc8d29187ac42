//! The values that object details carry, and how the client reads them.
use vstd::prelude::*;
use crate::id_map::IdMap;
use crate::text::texts;

verus! {

/// A detail value of an object, as the engine sends it.
///
/// Numbers travel as floating point; they are held here by their integer
/// part (rounded toward zero, saturated to the `i64` range, not-a-number as
/// zero), which is all that the client reads of them.
#[derive(PartialEq, Debug)]
pub enum FieldValue {
    /// A value without a kind.
    Empty,
    Null,
    Number(i64),
    Text(String),
    Bool(bool),
    List(Vec<FieldValue>),
    Struct(Vec<(String, FieldValue)>),
}

/// The detail fields of an object, by key.
pub type Fields = IdMap<FieldValue>;

/// The text that a value holds, or the empty text when it holds none.
pub open spec fn text_of(v: Option<FieldValue>) -> Seq<char> {
    match v {
        Some(FieldValue::Text(s)) => s@,
        _ => Seq::empty(),
    }
}

/// An integer saturated to the `i32` range.
pub open spec fn clamp_i32(n: int) -> int {
    if n < i32::MIN {
        i32::MIN as int
    } else if n > i32::MAX {
        i32::MAX as int
    } else {
        n
    }
}

/// The `i32` that a value stands for: its number saturated to the `i32`
/// range, or zero when it holds no number.
pub open spec fn number_of(v: Option<FieldValue>) -> int {
    match v {
        Some(FieldValue::Number(n)) => clamp_i32(n as int),
        _ => 0,
    }
}

/// The texts among `vs`, in order; other values are skipped.
pub open spec fn texts_among(vs: Seq<FieldValue>) -> Seq<Seq<char>>
    decreases vs.len(),
{
    if vs.len() == 0 {
        Seq::empty()
    } else {
        let r = texts_among(vs.drop_last());
        match vs.last() {
            FieldValue::Text(s) => r.push(s@),
            _ => r,
        }
    }
}

/// The texts in a list value, or nothing when the value is not a list.
pub open spec fn list_texts(v: Option<FieldValue>) -> Seq<Seq<char>> {
    match v {
        Some(FieldValue::List(vs)) => texts_among(vs@),
        _ => Seq::empty(),
    }
}

/// Law: the texts of a list are its text items, in order, and nothing else:
/// the list filtered to its texts, each read as its text.
pub proof fn law_texts_among(vs: Seq<FieldValue>)
    ensures
        texts_among(vs) == vs.filter(|v: FieldValue| v is Text).map_values(
            |v: FieldValue| v->Text_0@,
        ),
    decreases vs.len(),
{
    reveal(Seq::filter);
    if vs.len() > 0 {
        law_texts_among(vs.drop_last());
        let f = vs.drop_last().filter(|v: FieldValue| v is Text);
        if vs.last() is Text {
            assert(f.push(vs.last()).map_values(|v: FieldValue| v->Text_0@) =~= f.map_values(
                |v: FieldValue| v->Text_0@,
            ).push(vs.last()->Text_0@));
        }
    }
}

/// Law: a number value reads as its number when it fits an `i32`, as the
/// nearest bound when it does not, and any other value (or none) reads as
/// zero.
pub proof fn law_number_of(v: Option<FieldValue>)
    ensures
        v matches Some(FieldValue::Number(n)) ==> (i32::MIN <= n <= i32::MAX ==> number_of(v) == n)
            && (n < i32::MIN ==> number_of(v) == i32::MIN) && (n > i32::MAX ==> number_of(v)
            == i32::MAX),
        !(v matches Some(FieldValue::Number(_))) ==> number_of(v) == 0,
{
}

/// Law: a value reads as text exactly when it is a text, and then as that
/// text.
pub proof fn law_text_of(v: Option<FieldValue>)
    ensures
        v matches Some(FieldValue::Text(s)) ==> text_of(v) == s@,
        !(v matches Some(FieldValue::Text(_))) ==> text_of(v) == Seq::<char>::empty(),
{
}

/// Lifts an optional reference to an optional value (for contracts).
pub open spec fn opt_ref<A>(v: Option<&A>) -> Option<A> {
    match v {
        Some(x) => Some(*x),
        None => None,
    }
}

/// The text held by a value, or the empty text.
pub fn extract_string(val: Option<&FieldValue>) -> (r: String)
    ensures
        r@ == text_of(opt_ref(val)),
{
    match val {
        Some(FieldValue::Text(s)) => s.clone(),
        _ => String::new(),
    }
}

/// The text held by a value, or the empty text.
pub fn get_string(v: FieldValue) -> (r: String)
    ensures
        r@ == text_of(Some(v)),
{
    match v {
        FieldValue::Text(s) => s,
        _ => String::new(),
    }
}

/// The number held by a value as an `i32` (saturated), or zero.
pub fn extract_number(val: Option<&FieldValue>) -> (r: i32)
    ensures
        r as int == number_of(opt_ref(val)),
{
    match val {
        Some(FieldValue::Number(n)) => {
            let n = *n;
            if n < i32::MIN as i64 {
                i32::MIN
            } else if n > i32::MAX as i64 {
                i32::MAX
            } else {
                n as i32
            }
        },
        _ => 0,
    }
}

/// The texts in a list value, in order; other items are skipped.
pub fn extract_list_strings(v: Option<&FieldValue>) -> (r: Vec<String>)
    ensures
        texts(r@) == list_texts(opt_ref(v)),
{
    let mut out: Vec<String> = Vec::new();
    match v {
        Some(FieldValue::List(vs)) => {
            let mut i: usize = 0;
            assert(vs@.take(0) =~= Seq::<FieldValue>::empty());
            assert(texts(out@) =~= Seq::<Seq<char>>::empty());
            while i < vs.len()
                invariant
                    i <= vs.len(),
                    texts(out@) == texts_among(vs@.take(i as int)),
                decreases vs.len() - i,
            {
                assert(vs@.take(i + 1).drop_last() =~= vs@.take(i as int));
                assert(vs@.take(i + 1).last() == vs@[i as int]);
                match &vs[i] {
                    FieldValue::Text(s) => {
                        let ghost before = out@;
                        out.push(s.clone());
                        assert(texts(out@) =~= texts(before).push(s@));
                    },
                    _ => {},
                }
                i = i + 1;
            }
            assert(vs@.take(vs.len() as int) =~= vs@);
        },
        _ => {},
    }
    out
}

/// The texts in a list value (the same reading as `extract_list_strings`).
pub fn extract_list_strings_from_value(v: Option<&FieldValue>) -> (r: Vec<String>)
    ensures
        texts(r@) == list_texts(opt_ref(v)),
{
    extract_list_strings(v)
}

/// Whether a checkbox value is ticked: `Some` of the flag for a boolean
/// value, `None` (no state shown) for any other value.
pub fn checkbox_state(v: &FieldValue) -> (r: Option<bool>)
    ensures
        r == match *v {
            FieldValue::Bool(b) => Some(b),
            _ => None::<bool>,
        },
{
    match v {
        FieldValue::Bool(b) => Some(*b),
        _ => None,
    }
}

/// The field map of optional details: empty when there are none.
pub open spec fn fields_of(d: Option<Fields>) -> Map<Seq<char>, FieldValue> {
    match d {
        Some(f) => f@,
        None => Map::empty(),
    }
}

} // verus!
