use vstd::prelude::*;

verus! {

/// A JSON-shaped default value of a record field.
///
/// Floating-point defaults keep the literal exactly as it was written: `Float`
/// holds a literal whose value rounds to a finite 32-bit float, `Double` one
/// whose value rounds to a finite 64-bit float. Whole numbers are held as
/// `Number`.
#[derive(Debug, PartialEq)]
pub enum JsonValue {
    Null,
    Bool(bool),
    Number(i64),
    Float(String),
    Double(String),
    Str(String),
    Array(Vec<JsonValue>),
    Object(Vec<JsonEntry>),
}

/// One member of a JSON object.
#[derive(Debug, PartialEq)]
pub struct JsonEntry {
    pub key: String,
    pub value: JsonValue,
}

/// The mathematical model of a [`JsonValue`].
pub enum JsonV {
    Null,
    Bool(bool),
    Number(int),
    Float(Seq<char>),
    Double(Seq<char>),
    Str(Seq<char>),
    Array(Seq<JsonV>),
    Object(Seq<(Seq<char>, JsonV)>),
}

pub open spec fn json_view(j: JsonValue) -> JsonV
    decreases j,
{
    match j {
        JsonValue::Null => JsonV::Null,
        JsonValue::Bool(b) => JsonV::Bool(b),
        JsonValue::Number(n) => JsonV::Number(n as int),
        JsonValue::Float(t) => JsonV::Float(t@),
        JsonValue::Double(t) => JsonV::Double(t@),
        JsonValue::Str(t) => JsonV::Str(t@),
        JsonValue::Array(v) => JsonV::Array(
            Seq::new(v@.len(), |i: int| if 0 <= i < v@.len() { json_view(v@[i]) } else { JsonV::Null }),
        ),
        JsonValue::Object(v) => JsonV::Object(
            Seq::new(
                v@.len(),
                |i: int|
                    if 0 <= i < v@.len() {
                        (v@[i].key@, json_view(v@[i].value))
                    } else {
                        (Seq::empty(), JsonV::Null)
                    },
            ),
        ),
    }
}

impl View for JsonValue {
    type V = JsonV;

    open spec fn view(&self) -> JsonV {
        json_view(*self)
    }
}

} // verus!
