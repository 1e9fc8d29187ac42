//! Relations (properties) of objects: their keys, formats and descriptions.
use vstd::prelude::*;
use crate::fields::{extract_number, extract_string, number_of, text_of, Fields};
use crate::id_map::IdMap;

verus! {

/// The key of the `name` relation.
pub const NAME_RELATION_KEY: &'static str = "name";

/// The key of an object relation (a property), such as `name`.
#[derive(Clone, PartialEq, Eq, Hash, Debug)]
pub struct RelationKey(pub String);

impl RelationKey {
    /// The key as text.
    pub fn as_str(&self) -> (r: &str)
        ensures
            r@ == self.0@,
    {
        self.0.as_str()
    }

    /// The empty key.
    pub fn empty() -> (r: Self)
        ensures
            r.0@ == Seq::<char>::empty(),
    {
        RelationKey(String::new())
    }
}

impl Default for RelationKey {
    fn default() -> (r: Self)
        ensures
            r.0@ == Seq::<char>::empty(),
    {
        Self::empty()
    }
}

/// How the values of a relation are shown and edited.
#[derive(Clone, Copy, PartialEq, Eq, Structural, Debug)]
pub enum RelationFormat {
    Longtext,
    Shorttext,
    Number,
    Status,
    Tag,
    Date,
    File,
    Checkbox,
    Url,
    Email,
    Phone,
    Emoji,
    Object,
    Relations,
}

/// The format that a wire code stands for, if any.
pub open spec fn format_of_code(code: int) -> Option<RelationFormat> {
    if code == 0 {
        Some(RelationFormat::Longtext)
    } else if code == 1 {
        Some(RelationFormat::Shorttext)
    } else if code == 2 {
        Some(RelationFormat::Number)
    } else if code == 3 {
        Some(RelationFormat::Status)
    } else if code == 4 {
        Some(RelationFormat::Date)
    } else if code == 5 {
        Some(RelationFormat::File)
    } else if code == 6 {
        Some(RelationFormat::Checkbox)
    } else if code == 7 {
        Some(RelationFormat::Url)
    } else if code == 8 {
        Some(RelationFormat::Email)
    } else if code == 9 {
        Some(RelationFormat::Phone)
    } else if code == 10 {
        Some(RelationFormat::Emoji)
    } else if code == 11 {
        Some(RelationFormat::Tag)
    } else if code == 100 {
        Some(RelationFormat::Object)
    } else if code == 101 {
        Some(RelationFormat::Relations)
    } else {
        None
    }
}

/// Law: each wire code stands for the format with that number in the
/// engine's model, and only that code does: 0 long text, 1 short text,
/// 2 number, 3 status, 4 date, 5 file, 6 checkbox, 7 url, 8 email, 9 phone,
/// 10 emoji, 11 tag, 100 object, 101 relations; any other code stands for
/// none.
pub proof fn law_format_codes(code: int)
    ensures
        format_of_code(code) == Some(RelationFormat::Longtext) <==> code == 0,
        format_of_code(code) == Some(RelationFormat::Shorttext) <==> code == 1,
        format_of_code(code) == Some(RelationFormat::Number) <==> code == 2,
        format_of_code(code) == Some(RelationFormat::Status) <==> code == 3,
        format_of_code(code) == Some(RelationFormat::Date) <==> code == 4,
        format_of_code(code) == Some(RelationFormat::File) <==> code == 5,
        format_of_code(code) == Some(RelationFormat::Checkbox) <==> code == 6,
        format_of_code(code) == Some(RelationFormat::Url) <==> code == 7,
        format_of_code(code) == Some(RelationFormat::Email) <==> code == 8,
        format_of_code(code) == Some(RelationFormat::Phone) <==> code == 9,
        format_of_code(code) == Some(RelationFormat::Emoji) <==> code == 10,
        format_of_code(code) == Some(RelationFormat::Tag) <==> code == 11,
        format_of_code(code) == Some(RelationFormat::Object) <==> code == 100,
        format_of_code(code) == Some(RelationFormat::Relations) <==> code == 101,
        format_of_code(code) is None <==> !(0 <= code <= 11 || code == 100 || code == 101),
{
}

impl RelationFormat {
    /// The format with the given wire code, if there is one.
    pub fn from_code(code: i32) -> (r: Option<RelationFormat>)
        ensures
            r == format_of_code(code as int),
    {
        match code {
            0 => Some(RelationFormat::Longtext),
            1 => Some(RelationFormat::Shorttext),
            2 => Some(RelationFormat::Number),
            3 => Some(RelationFormat::Status),
            4 => Some(RelationFormat::Date),
            5 => Some(RelationFormat::File),
            6 => Some(RelationFormat::Checkbox),
            7 => Some(RelationFormat::Url),
            8 => Some(RelationFormat::Email),
            9 => Some(RelationFormat::Phone),
            10 => Some(RelationFormat::Emoji),
            11 => Some(RelationFormat::Tag),
            100 => Some(RelationFormat::Object),
            101 => Some(RelationFormat::Relations),
            _ => None,
        }
    }
}

/// The format that a code stands for, long text when it stands for none.
pub open spec fn format_or_longtext(code: int) -> RelationFormat {
    match format_of_code(code) {
        Some(f) => f,
        None => RelationFormat::Longtext,
    }
}

/// A relation of a space: its key, name and format.
#[derive(Clone, PartialEq, Debug)]
pub struct RelationInfo {
    pub key: RelationKey,
    pub name: String,
    pub format: RelationFormat,
}

/// Reads a relation from the record that a search returned: its
/// `relationKey`, `name` and `relationFormat` fields (an unknown format is
/// long text).
pub fn relation_info_from_record(record: &Fields) -> (r: RelationInfo)
    ensures
        r.key.0@ == text_of(record@.get("relationKey"@)),
        r.name@ == text_of(record@.get("name"@)),
        r.format == format_or_longtext(number_of(record@.get("relationFormat"@))),
{
    let name = extract_string(record.get("name"));
    let key = extract_string(record.get("relationKey"));
    let code = extract_number(record.get("relationFormat"));
    let format = match RelationFormat::from_code(code) {
        Some(f) => f,
        None => RelationFormat::Longtext,
    };
    RelationInfo { key: RelationKey(key), name, format }
}

/// The relations that the records of a search describe, by key; a later
/// record with the same key replaces an earlier one.
pub fn relations_from_records(records: &Vec<Fields>) -> (r: IdMap<RelationInfo>)
    ensures
        forall|k: Seq<char>| #[trigger]
            r@.contains_key(k) <==> exists|i: int|
                0 <= i < records@.len() && text_of(records@[i]@.get("relationKey"@)) == k,
        forall|i: int|
            0 <= i < records@.len() && (forall|j: int|
                i < j < records@.len() ==> text_of(records@[j]@.get("relationKey"@)) != text_of(
                    records@[i]@.get("relationKey"@),
                )) ==> ({
                let info = #[trigger] r@[text_of(records@[i]@.get("relationKey"@))];
                &&& info.key.0@ == text_of(records@[i]@.get("relationKey"@))
                &&& info.name@ == text_of(records@[i]@.get("name"@))
                &&& info.format == format_or_longtext(number_of(records@[i]@.get("relationFormat"@)))
            }),
{
    let mut out: IdMap<RelationInfo> = IdMap::new();
    let mut i: usize = 0;
    while i < records.len()
        invariant
            i <= records.len(),
            forall|k: Seq<char>| #[trigger]
                out@.contains_key(k) <==> exists|j: int|
                    0 <= j < i && text_of(records@[j]@.get("relationKey"@)) == k,
            forall|j: int|
                0 <= j < i && (forall|l: int|
                    j < l < i ==> text_of(records@[l]@.get("relationKey"@)) != text_of(
                        records@[j]@.get("relationKey"@),
                    )) ==> ({
                    let info = #[trigger] out@[text_of(records@[j]@.get("relationKey"@))];
                    &&& info.key.0@ == text_of(records@[j]@.get("relationKey"@))
                    &&& info.name@ == text_of(records@[j]@.get("name"@))
                    &&& info.format == format_or_longtext(
                        number_of(records@[j]@.get("relationFormat"@)),
                    )
                }),
        decreases records.len() - i,
    {
        let info = relation_info_from_record(&records[i]);
        let key = info.key.0.clone();
        out.insert(key, info);
        proof {
            let ki = text_of(records@[i as int]@.get("relationKey"@));
            assert forall|k: Seq<char>| #[trigger]
                out@.contains_key(k) <==> exists|j: int|
                    0 <= j < i + 1 && text_of(records@[j]@.get("relationKey"@)) == k by {
                if k == ki {
                    assert(text_of(records@[i as int]@.get("relationKey"@)) == k);
                } else if out@.contains_key(k) {
                    let j = choose|j: int|
                        0 <= j < i && text_of(records@[j]@.get("relationKey"@)) == k;
                    assert(0 <= j < i + 1);
                }
            }
        }
        i = i + 1;
    }
    out
}

/// How a relation's value is shown.
#[derive(PartialEq, Eq, Structural, Debug)]
pub enum ValueDisplay {
    Date,
    Checkbox,
    Status,
    /// As text.
    Text,
}

/// How a value is shown, by the format of its relation: dates, checkboxes
/// and statuses have their own display, anything else (or an unknown
/// relation) is shown as text.
pub fn value_display(info: Option<&RelationInfo>) -> (r: ValueDisplay)
    ensures
        r == match info {
            Some(i) => match i.format {
                RelationFormat::Date => ValueDisplay::Date,
                RelationFormat::Checkbox => ValueDisplay::Checkbox,
                RelationFormat::Status => ValueDisplay::Status,
                _ => ValueDisplay::Text,
            },
            None => ValueDisplay::Text,
        },
{
    match info {
        Some(i) => match i.format {
            RelationFormat::Date => ValueDisplay::Date,
            RelationFormat::Checkbox => ValueDisplay::Checkbox,
            RelationFormat::Status => ValueDisplay::Status,
            _ => ValueDisplay::Text,
        },
        None => ValueDisplay::Text,
    }
}

} // verus!
