//! The stored-value model consumed by the encoder: a strictly nested tagged
//! union of scalars, strings, blobs, lists and maps.

use vstd::prelude::*;
use vstd::utf8::encode_utf8;

verus! {

/// One storable value. Containers nest to unbounded depth; the encoder
/// serializes the whole tree recursively.
///
/// A float is carried as the bit pattern of an IEEE-754 double, which is all
/// the wire format needs. A map is an ordered sequence of key/value pairs:
/// pair order is caller-controlled and is preserved verbatim by the encoder,
/// with no reordering and no deduplication.
#[derive(Debug, PartialEq, Eq)]
pub enum Value {
    Nil,
    Bool(bool),
    Int(i64),
    Float(u64),
    String(String),
    Blob(Vec<u8>),
    List(Vec<Value>),
    OrderedMap(Vec<(Value, Value)>),
    GeoJSON(String),
}

/// Well-formed for the wire format: every string, blob and container fits a
/// four-byte length field. These are the only inputs the format can carry;
/// the encoder has no failure mode of its own on well-formed values.
pub open spec fn value_wf(v: Value) -> bool
    decreases v,
{
    match v {
        Value::Nil => true,
        Value::Bool(_) => true,
        Value::Int(_) => true,
        Value::Float(_) => true,
        Value::String(s) => encode_utf8(s@).len() <= 0xffff_ffff,
        Value::Blob(b) => b@.len() <= 0xffff_ffff,
        Value::List(items) => items_wf(items@),
        Value::OrderedMap(pairs) => pairs_wf(pairs@),
        Value::GeoJSON(s) => encode_utf8(s@).len() <= 0xffff_ffff,
    }
}

/// Well-formed sequence of list elements: the count fits a four-byte field
/// and every element is itself well-formed.
pub open spec fn items_wf(items: Seq<Value>) -> bool
    decreases items,
{
    &&& items.len() <= 0xffff_ffff
    &&& forall|i: int| 0 <= i < items.len() ==> value_wf(#[trigger] items[i])
}

/// Well-formed sequence of map pairs: the pair count fits a four-byte field
/// and every key and value is itself well-formed.
pub open spec fn pairs_wf(pairs: Seq<(Value, Value)>) -> bool
    decreases pairs,
{
    &&& pairs.len() <= 0xffff_ffff
    &&& forall|i: int|
        0 <= i < pairs.len() ==> value_wf((#[trigger] pairs[i]).0) && value_wf(pairs[i].1)
}

} // verus!
