//! A JSON document as the profile logic reads and edits it. The values are
//! the ones `serde_json` parses: numbers keep serde_json's three kinds, and
//! an object keeps its entries in order.
use vstd::prelude::*;
use crate::text::{chars_of, eq_chars, opt_string_view};

verus! {

/// A JSON number as serde_json holds one: a non-negative integer, a negative
/// integer, or a float, which this library keeps as the text serde_json
/// writes for it.
#[derive(Clone, Debug, PartialEq)]
pub enum JsonNumber {
    PosInt(u64),
    NegInt(i64),
    Float(String),
}

/// A JSON value.
#[derive(Debug, PartialEq)]
pub enum JsonValue {
    Null,
    Bool(bool),
    Number(JsonNumber),
    Str(String),
    Array(Vec<JsonValue>),
    Object(Vec<(String, JsonValue)>),
}

/// The value of the first entry with this key.
pub open spec fn lookup(entries: Seq<(String, JsonValue)>, key: Seq<char>) -> Option<JsonValue>
    decreases entries.len(),
{
    if entries.len() == 0 {
        None
    } else if entries[0].0@ == key {
        Some(entries[0].1)
    } else {
        lookup(entries.drop_first(), key)
    }
}

/// What `Value::get` gives for a key: the field's value when the document is
/// an object that has the key.
pub open spec fn field(document: JsonValue, key: Seq<char>) -> Option<JsonValue> {
    match document {
        JsonValue::Object(entries) => lookup(entries@, key),
        _ => None,
    }
}

/// What `Value::as_str` gives for a field.
pub open spec fn as_str(value: Option<JsonValue>) -> Option<Seq<char>> {
    match value {
        Some(JsonValue::Str(s)) => Some(s@),
        _ => None,
    }
}

/// What `Value::as_i64` gives for a field: an integer that fits in `i64`.
pub open spec fn as_i64(value: Option<JsonValue>) -> Option<i64> {
    match value {
        Some(JsonValue::Number(JsonNumber::PosInt(n))) => if n <= i64::MAX {
            Some(n as i64)
        } else {
            None
        },
        Some(JsonValue::Number(JsonNumber::NegInt(n))) => Some(n),
        _ => None,
    }
}

/// `after` is `before` once `Map::insert` has set the key to the value: the
/// first entry with the key takes the value and keeps its place, or, when
/// no entry has the key, an entry for it comes last.
pub open spec fn is_inserted(
    before: Seq<(String, JsonValue)>,
    after: Seq<(String, JsonValue)>,
    key: Seq<char>,
    value: JsonValue,
) -> bool
    decreases before.len(),
{
    if before.len() == 0 {
        after.len() == 1 && after[0].0@ == key && after[0].1 == value
    } else if before[0].0@ == key {
        &&& after.len() == before.len()
        &&& after[0].0@ == key
        &&& after[0].1 == value
        &&& after.drop_first() == before.drop_first()
    } else {
        &&& after.len() > 0
        &&& after[0] == before[0]
        &&& is_inserted(before.drop_first(), after.drop_first(), key, value)
    }
}

/// `after` is the document `before` with the key set to the value: set in
/// an object, and no change to anything else.
pub open spec fn field_set(before: JsonValue, after: JsonValue, key: Seq<char>, value: JsonValue) -> bool {
    match before {
        JsonValue::Object(entries) => match after {
            JsonValue::Object(updated) => is_inserted(entries@, updated@, key, value),
            _ => false,
        },
        _ => after == before,
    }
}

/// The number serde_json makes of an `i64` (`Number: From<i64>`).
pub open spec fn number_spec(n: i64) -> JsonNumber {
    if n < 0 {
        JsonNumber::NegInt(n)
    } else {
        JsonNumber::PosInt(n as u64)
    }
}

/// `Number::from` for an `i64`.
pub fn number_of(n: i64) -> (r: JsonNumber)
    ensures
        r == number_spec(n),
{
    if n < 0 {
        JsonNumber::NegInt(n)
    } else {
        JsonNumber::PosInt(n as u64)
    }
}

proof fn lemma_skip_keys(entries: Seq<(String, JsonValue)>, key: Seq<char>, i: int)
    requires
        0 <= i <= entries.len(),
        forall|j: int| 0 <= j < i ==> entries[j].0@ != key,
    ensures
        lookup(entries, key) == lookup(entries.skip(i), key),
    decreases i,
{
    if i > 0 {
        let rest = entries.drop_first();
        assert forall|j: int| 0 <= j < i - 1 implies rest[j].0@ != key by {
            assert(rest[j] == entries[j + 1]);
        }
        lemma_skip_keys(rest, key, i - 1);
        assert(rest.skip(i - 1) =~= entries.skip(i));
    } else {
        assert(entries.skip(0) =~= entries);
    }
}

/// The value of the document's field with this key (`Value::get`).
pub fn get_field<'a>(document: &'a JsonValue, key: &str) -> (r: Option<&'a JsonValue>)
    ensures
        match r {
            Some(v) => field(*document, key@) == Some(*v),
            None => field(*document, key@) is None,
        },
{
    match document {
        JsonValue::Object(entries) => {
            assert(field(*document, key@) == lookup(entries@, key@));
            let wanted = chars_of(key);
            let mut i: usize = 0;
            while i < entries.len()
                invariant
                    i <= entries.len(),
                    wanted@ == key@,
                    field(*document, key@) == lookup(entries@, key@),
                    forall|j: int| 0 <= j < i ==> entries@[j].0@ != key@,
                decreases entries.len() - i,
            {
                if eq_chars(&chars_of(entries[i].0.as_str()), &wanted) {
                    proof {
                        lemma_skip_keys(entries@, key@, i as int);
                        assert(entries@[i as int].0@ == key@);
                        assert(entries@.skip(i as int)[0] == entries@[i as int]);
                        assert(lookup(entries@.skip(i as int), key@) == Some(entries@[i as int].1));
                    }
                    return Some(&entries[i].1);
                }
                i = i + 1;
            }
            proof {
                lemma_skip_keys(entries@, key@, i as int);
            }
            None
        },
        _ => None,
    }
}

/// The field's text when it is a JSON string (`Value::as_str`, copied).
pub fn string_value(value: Option<&JsonValue>) -> (r: Option<String>)
    ensures
        match value {
            Some(v) => as_str(Some(*v)) == opt_string_view(r),
            None => r is None,
        },
{
    match value {
        Some(JsonValue::Str(s)) => Some(s.clone()),
        _ => None,
    }
}

/// The field's integer when it fits in `i64` (`Value::as_i64`).
pub fn integer_value(value: Option<&JsonValue>) -> (r: Option<i64>)
    ensures
        match value {
            Some(v) => r == as_i64(Some(*v)),
            None => r is None,
        },
{
    match value {
        Some(JsonValue::Number(JsonNumber::PosInt(n))) => {
            if *n <= i64::MAX as u64 {
                Some(*n as i64)
            } else {
                None
            }
        },
        Some(JsonValue::Number(JsonNumber::NegInt(n))) => Some(*n),
        _ => None,
    }
}

proof fn lemma_inserted_at(
    before: Seq<(String, JsonValue)>,
    after: Seq<(String, JsonValue)>,
    key: Seq<char>,
    value: JsonValue,
    i: int,
)
    requires
        0 <= i <= before.len(),
        forall|j: int| 0 <= j < i ==> before[j].0@ != key,
        after.len() >= i,
        after.take(i) == before.take(i),
        is_inserted(before.skip(i), after.skip(i), key, value),
    ensures
        is_inserted(before, after, key, value),
    decreases i,
{
    if i > 0 {
        assert(before[0] == before.take(i)[0]);
        assert(after[0] == after.take(i)[0]);
        let b = before.drop_first();
        let a = after.drop_first();
        assert forall|j: int| 0 <= j < i - 1 implies b[j].0@ != key by {
            assert(b[j] == before[j + 1]);
        }
        assert(a.take(i - 1) =~= after.take(i).drop_first());
        assert(b.take(i - 1) =~= before.take(i).drop_first());
        assert(b.skip(i - 1) =~= before.skip(i));
        assert(a.skip(i - 1) =~= after.skip(i));
        lemma_inserted_at(b, a, key, value, i - 1);
    } else {
        assert(before.skip(0) =~= before);
        assert(after.skip(0) =~= after);
    }
}

/// Sets the key to the value when the document is an object (`Map::insert`)
/// and tells whether it was one; any other document is left as it is.
pub fn insert_field(document: &mut JsonValue, key: String, value: JsonValue) -> (r: bool)
    ensures
        r == (*old(document) is Object),
        field_set(*old(document), *final(document), key@, value),
{
    let mut taken = JsonValue::Null;
    std::mem::swap(&mut taken, document);
    match taken {
        JsonValue::Object(mut entries) => {
            let ghost before = entries@;
            let mut i: usize = 0;
            let mut found = false;
            while !found && i < entries.len()
                invariant
                    entries@ == before,
                    i <= entries.len(),
                    forall|j: int| 0 <= j < i ==> entries@[j].0@ != key@,
                    found ==> i < entries.len() && entries@[i as int].0@ == key@,
                decreases entries.len() - i + (if found { 0int } else { 1int }),
            {
                if entries[i].0 == key {
                    found = true;
                } else {
                    i = i + 1;
                }
            }
            if found {
                let (k, _) = entries.remove(i);
                entries.insert(i, (k, value));
                proof {
                    let after = entries@;
                    assert(after.take(i as int) =~= before.take(i as int));
                    assert(after.skip(i as int).drop_first() =~= before.skip(i as int).drop_first());
                    assert(before.skip(i as int)[0] == before[i as int]);
                    lemma_inserted_at(before, after, key@, value, i as int);
                }
            } else {
                entries.push((key, value));
                proof {
                    let after = entries@;
                    assert(after.take(i as int) =~= before.take(i as int));
                    assert(before.skip(i as int).len() == 0);
                    lemma_inserted_at(before, after, key@, value, i as int);
                }
            }
            *document = JsonValue::Object(entries);
            true
        },
        other => {
            *document = other;
            false
        },
    }
}

/// A field set in an object document reads back as the value it was set
/// to, and every other field reads as it did before.
pub proof fn lemma_inserted_reads_back(
    before: Seq<(String, JsonValue)>,
    after: Seq<(String, JsonValue)>,
    key: Seq<char>,
    value: JsonValue,
    other: Seq<char>,
)
    requires
        is_inserted(before, after, key, value),
    ensures
        lookup(after, key) == Some(value),
        other != key ==> lookup(after, other) == lookup(before, other),
    decreases before.len(),
{
    if before.len() == 0 {
        assert(lookup(after.drop_first(), other) is None);
    } else if before[0].0@ != key {
        lemma_inserted_reads_back(before.drop_first(), after.drop_first(), key, value, other);
    } else if other != key {
        assert(lookup(after, other) == lookup(after.drop_first(), other));
        assert(lookup(before, other) == lookup(before.drop_first(), other));
    }
}

/// Setting a field of an object document, then reading it, gives the value
/// set; the document's other fields read as before. Any other document has
/// nothing set.
pub proof fn lemma_field_set_reads_back(
    before: JsonValue,
    after: JsonValue,
    key: Seq<char>,
    value: JsonValue,
    other: Seq<char>,
)
    requires
        field_set(before, after, key, value),
    ensures
        before is Object ==> field(after, key) == Some(value),
        other != key ==> field(after, other) == field(before, other),
        !(before is Object) ==> after == before,
{
    match before {
        JsonValue::Object(entries) => match after {
            JsonValue::Object(updated) => {
                lemma_inserted_reads_back(entries@, updated@, key, value, other);
            },
            _ => {},
        },
        _ => {},
    }
}

} // verus!
