//! What requests and other programs say in JSON.
//!
//! A document is read once and asked what stands at some places in it. A place is
//! written as a JSON pointer, such as `/streams/0/width`.
use crate::double::Double;
use crate::text;
use serde_json::Value;
use vstd::prelude::*;

verus! {

/// What stands at a place of a document.
#[derive(Clone, Debug)]
pub enum Field {
    /// Nothing, or null.
    Nothing,
    Truth(bool),
    /// A number: as a whole number, if it is one that is not negative, and as a
    /// double.
    Number(Option<u64>, Option<Double>),
    Text(String),
    /// A list of this many values.
    List(usize),
    /// An object.
    Table,
}

/// What stands at a place of a document, with its characters.
pub enum Datum {
    Nothing,
    Truth(bool),
    Number(Option<u64>, Option<Double>),
    Text(Seq<char>),
    List(nat),
    Table,
}

/// The characters of a field.
pub open spec fn datum(f: Field) -> Datum {
    match f {
        Field::Nothing => Datum::Nothing,
        Field::Truth(b) => Datum::Truth(b),
        Field::Number(n, d) => Datum::Number(n, d),
        Field::Text(s) => Datum::Text(s@),
        Field::List(n) => Datum::List(n as nat),
        Field::Table => Datum::Table,
    }
}

/// Whether `serde_json::from_slice` reads bytes as a JSON value.
pub uninterp spec fn is_json(document: Seq<u8>) -> bool;

/// What `serde_json::Value::pointer` finds in the value of a document.
pub uninterp spec fn json_at(document: Seq<u8>, pointer: Seq<char>) -> Datum;

/// `serde_json::from_slice::<Value>`, and `Value::pointer` on what it reads, for
/// each of the pointers: whether there is a value is [`is_json`] of the bytes, and
/// what stands at each pointer is [`json_at`] of the bytes and the pointer. A
/// pointer to nowhere gives nothing, as one to null does.
#[verifier::external_body]
pub(crate) fn read_json(document: &[u8], pointers: &Vec<String>) -> (r: Option<Vec<Field>>)
    ensures
        r is Some == is_json(document@),
        r matches Some(fields) ==> fields@.len() == pointers@.len() && forall|i: int|
            0 <= i < fields@.len() ==> datum(#[trigger] fields@[i]) == json_at(
                document@,
                pointers@[i]@,
            ),
{
    let value = serde_json::from_slice::<Value>(document).ok()?;
    let field = |p: &String| match value.pointer(p) {
        None | Some(Value::Null) => Field::Nothing,
        Some(Value::Bool(b)) => Field::Truth(*b),
        Some(Value::Number(n)) => {
            Field::Number(n.as_u64(), n.as_f64().map(|d| Double { bits: d.to_bits() }))
        },
        Some(Value::String(s)) => Field::Text(s.clone()),
        Some(Value::Array(list)) => Field::List(list.len()),
        Some(Value::Object(_)) => Field::Table,
    };
    Some(pointers.iter().map(field).collect())
}

/// A text, if it is one.
pub open spec fn text_in(d: Datum) -> Option<Seq<char>> {
    match d {
        Datum::Text(s) => Some(s),
        _ => None,
    }
}

/// A whole number that is not negative, if it is one.
pub open spec fn whole_in(d: Datum) -> Option<u64> {
    match d {
        Datum::Number(n, _) => n,
        _ => None,
    }
}

/// A number, if it is one.
pub open spec fn double_in(d: Datum) -> Option<Double> {
    match d {
        Datum::Number(_, n) => n,
        _ => None,
    }
}

impl Field {
    /// A text, if it is one.
    pub fn text(&self) -> (r: Option<String>)
        ensures
            text::opt_text(r) == text_in(datum(*self)),
    {
        match self {
            Field::Text(s) => Some(s.clone()),
            _ => None,
        }
    }

    /// A whole number that is not negative, if it is one.
    pub fn whole(&self) -> (r: Option<u64>)
        ensures
            r == whole_in(datum(*self)),
    {
        match self {
            Field::Number(n, _) => *n,
            _ => None,
        }
    }

    /// A number, if it is one.
    pub fn double(&self) -> (r: Option<Double>)
        ensures
            r == double_in(datum(*self)),
    {
        match self {
            Field::Number(_, d) => *d,
            _ => None,
        }
    }
}

/// What stands at some places of a document, if it is one.
pub fn fields(document: &[u8], pointers: &[&str]) -> (r: Option<Vec<Field>>)
    ensures
        r is Some == is_json(document@),
        r matches Some(fields) ==> fields@.len() == pointers@.len() && forall|i: int|
            0 <= i < fields@.len() ==> datum(#[trigger] fields@[i]) == json_at(
                document@,
                pointers@[i]@,
            ),
{
    let mut list: Vec<String> = Vec::new();
    let mut i: usize = 0;
    while i < pointers.len()
        invariant
            i <= pointers@.len(),
            list@.len() == i,
            forall|k: int| 0 <= k < i ==> (#[trigger] list@[k])@ == pointers@[k]@,
        decreases pointers@.len() - i,
    {
        list.push(pointers[i].to_owned());
        i += 1;
    }
    read_json(document, &list)
}

/// A text is read as itself and nothing else as a text; a number is read as a
/// whole number and as a double where it is one.
pub proof fn law_fields_by_kind(d: Datum, s: Seq<char>, n: Option<u64>, v: Option<Double>)
    ensures
        text_in(Datum::Text(s)) == Some(s),
        !(d is Text) ==> text_in(d) is None,
        whole_in(Datum::Number(n, v)) == n,
        double_in(Datum::Number(n, v)) == v,
        !(d is Number) ==> whole_in(d) is None && double_in(d) is None,
{
}

/// A field stands for the value that it holds.
pub proof fn law_fields_hold_their_value(f: Field)
    ensures
        (datum(f) is Nothing) == (f is Nothing),
        f matches Field::Truth(b) ==> datum(f) == Datum::Truth(b),
        f matches Field::Number(n, d) ==> datum(f) == Datum::Number(n, d),
        f matches Field::Text(s) ==> datum(f) == Datum::Text(s@),
        f matches Field::List(n) ==> datum(f) == Datum::List(n as nat),
        (datum(f) is Table) == (f is Table),
{
}

} // verus!
