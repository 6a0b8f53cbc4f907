//! Rendering JSON objects.
use serde_json::Value;
use vstd::prelude::*;

verus! {

/// A flat JSON object: its fields that hold a text, and those that hold a number.
#[derive(Debug)]
pub struct Record {
    pub texts: Vec<(String, String)>,
    pub numbers: Vec<(String, i64)>,
}

/// The text fields of a record.
pub open spec fn text_fields(fields: Seq<(String, String)>) -> Seq<(Seq<char>, Seq<char>)> {
    Seq::new(fields.len(), |i: int| (fields[i].0@, fields[i].1@))
}

/// The number fields of a record.
pub open spec fn number_fields(fields: Seq<(String, i64)>) -> Seq<(Seq<char>, i64)> {
    Seq::new(fields.len(), |i: int| (fields[i].0@, fields[i].1))
}

impl Record {
    /// The fields of this record.
    pub open spec fn fields(self) -> (Seq<(Seq<char>, Seq<char>)>, Seq<(Seq<char>, i64)>) {
        (text_fields(self.texts@), number_fields(self.numbers@))
    }
}

/// The fields of each of some records.
pub open spec fn rows_of(
    rows: Seq<Record>,
) -> Seq<(Seq<(Seq<char>, Seq<char>)>, Seq<(Seq<char>, i64)>)> {
    Seq::new(rows.len(), |i: int| rows[i].fields())
}

/// The JSON text of an object with some text fields, some number fields, and,
/// where given, one more field that holds a list of flat objects.
pub uninterp spec fn json_text(
    texts: Seq<(Seq<char>, Seq<char>)>,
    numbers: Seq<(Seq<char>, i64)>,
    list: Option<(Seq<char>, Seq<(Seq<(Seq<char>, Seq<char>)>, Seq<(Seq<char>, i64)>)>)>,
) -> Seq<char>;

/// The content of an optional list field.
pub open spec fn list_of(
    list: Option<(String, Vec<Record>)>,
) -> Option<(Seq<char>, Seq<(Seq<(Seq<char>, Seq<char>)>, Seq<(Seq<char>, i64)>)>)> {
    match list {
        Some(field) => Some((field.0@, rows_of(field.1@))),
        None => None,
    }
}

/// `serde_json::Value::to_string` on the object with these fields: a function
/// of the fields alone, named [`json_text`].
#[verifier::external_body]
pub(crate) fn render_json(record: &Record, list: &Option<(String, Vec<Record>)>) -> (r: String)
    ensures
        r@ == json_text(record.fields().0, record.fields().1, list_of(*list)),
{
    let object = |r: &Record| -> serde_json::Map<String, Value> {
        let texts = r.texts.iter().map(|(k, v)| (k.clone(), Value::from(v.as_str())));
        texts.chain(r.numbers.iter().map(|(k, n)| (k.clone(), Value::from(*n)))).collect()
    };
    let mut all: serde_json::Map<String, Value> = object(record);
    if let Some((key, rows)) = list {
        let rows: Vec<Value> = rows.iter().map(|r| Value::Object(object(r))).collect();
        all.insert(key.clone(), Value::Array(rows));
    }
    Value::Object(all).to_string()
}

/// The JSON text of an object of text fields.
pub open spec fn record_text(fields: Seq<(Seq<char>, Seq<char>)>) -> Seq<char> {
    json_text(fields, Seq::empty(), None)
}

/// Renders an object of text fields.
pub fn render_texts(fields: Vec<(String, String)>) -> (r: String)
    ensures
        r@ == record_text(text_fields(fields@)),
{
    let numbers: Vec<(String, i64)> = Vec::new();
    assert(number_fields(numbers@) =~= Seq::empty());
    render_json(&Record { texts: fields, numbers }, &None)
}

} // verus!
