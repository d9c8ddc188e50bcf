//! JSON objects as the `serde_json` crate reads them.
use vstd::prelude::*;

verus! {

/// `serde_json::Value`: a parsed JSON text.
#[verifier::external_type_specification]
#[verifier::external_body]
pub struct ExJsonValue(serde_json::Value);

/// `serde_json::Error`: why JSON could not be read or written.
#[verifier::external_type_specification]
#[verifier::external_body]
pub struct ExJsonError(serde_json::Error);

/// A JSON value as contracts speak of it: an integer, an array (of whose elements only the
/// 64-bit integers are told apart), or anything else.
pub ghost enum JsonItem {
    Integer(int),
    Array(Seq<Option<i64>>),
    Other,
}

/// The fields of a JSON value: those of an object, and none of any other value.
pub uninterp spec fn json_fields(value: serde_json::Value) -> Map<Seq<char>, JsonItem>;

/// The fields of the JSON value with the given text, if it is JSON (nested no deeper than the
/// parser allows).
pub uninterp spec fn parsed_fields(text: Seq<char>) -> Option<Map<Seq<char>, JsonItem>>;

/// A field as an `i64`: an integer in the range of that type.
pub open spec fn item_i64(fields: Map<Seq<char>, JsonItem>, key: Seq<char>) -> Option<i64> {
    if fields.contains_key(key) {
        match fields[key] {
            JsonItem::Integer(n) => if i64::MIN <= n <= i64::MAX {
                Some(n as i64)
            } else {
                None
            },
            _ => None,
        }
    } else {
        None
    }
}

/// A field as a `u64`: an integer in the range of that type.
pub open spec fn item_u64(fields: Map<Seq<char>, JsonItem>, key: Seq<char>) -> Option<u64> {
    if fields.contains_key(key) {
        match fields[key] {
            JsonItem::Integer(n) => if 0 <= n <= u64::MAX {
                Some(n as u64)
            } else {
                None
            },
            _ => None,
        }
    } else {
        None
    }
}

/// A field as an array.
pub open spec fn item_array(fields: Map<Seq<char>, JsonItem>, key: Seq<char>) -> Option<
    Seq<Option<i64>>,
> {
    if fields.contains_key(key) {
        match fields[key] {
            JsonItem::Array(items) => Some(items),
            _ => None,
        }
    } else {
        None
    }
}

/// `serde_json::from_str`: parses a JSON text. It succeeds on exactly the texts that have a
/// value, and the value has the fields that the text gives it.
#[verifier::external_body]
pub(crate) fn parse_json(text: &str) -> (r: Result<serde_json::Value, serde_json::Error>)
    ensures
        r is Ok <==> parsed_fields(text@) is Some,
        r matches Ok(value) ==> parsed_fields(text@) == Some(json_fields(value)),
{
    serde_json::from_str(text)
}

/// `serde_json::Value::as_i64` on the field of the given name (of a value that is no object
/// every field is null): the field's integer, if it is one and an `i64` holds it.
#[verifier::external_body]
pub(crate) fn json_i64(value: &serde_json::Value, key: &str) -> (r: Option<i64>)
    ensures
        r == item_i64(json_fields(*value), key@),
{
    value[key].as_i64()
}

/// `serde_json::Value::as_u64` on the field of the given name: the field's integer, if it is one
/// and a `u64` holds it.
#[verifier::external_body]
pub(crate) fn json_u64(value: &serde_json::Value, key: &str) -> (r: Option<u64>)
    ensures
        r == item_u64(json_fields(*value), key@),
{
    value[key].as_u64()
}

/// `serde_json::Value::as_array` on the field of the given name: the field's elements, each as
/// `serde_json::Value::as_i64` gives it, if the field is an array.
#[verifier::external_body]
pub(crate) fn json_array(value: &serde_json::Value, key: &str) -> (r: Option<Vec<Option<i64>>>)
    ensures
        r is Some <==> item_array(json_fields(*value), key@) is Some,
        r matches Some(items) ==> item_array(json_fields(*value), key@) == Some(items@),
{
    value[key].as_array().map(|items| items.iter().map(|item| item.as_i64()).collect())
}

/// A field is an integer of a type exactly if it is there, is an integer and lies in the range of
/// the type, and it is an array exactly if it is there and is one.
pub proof fn law_items(fields: Map<Seq<char>, JsonItem>, key: Seq<char>, n: int)
    ensures
        item_i64(fields, key) matches Some(m) ==> fields.contains_key(key) && fields[key]
            == JsonItem::Integer(m as int),
        item_u64(fields, key) matches Some(m) ==> fields.contains_key(key) && fields[key]
            == JsonItem::Integer(m as int),
        item_array(fields, key) matches Some(items) ==> fields.contains_key(key) && fields[key]
            == JsonItem::Array(items),
        fields.contains_key(key) && fields[key] == JsonItem::Integer(n) ==> {
            &&& item_i64(fields, key) is Some <==> -0x8000_0000_0000_0000 <= n
                <= 0x7fff_ffff_ffff_ffff
            &&& item_u64(fields, key) is Some <==> 0 <= n <= 0xffff_ffff_ffff_ffff
        },
        fields.contains_key(key) && fields[key] is Array ==> item_array(fields, key) is Some,
{
}

} // verus!
