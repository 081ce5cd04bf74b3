//! Trusted boundary around `serde_json`: the hub carries message payloads as
//! opaque JSON values and serializes whole messages to the wire, and both
//! jobs are done by `serde_json` behind the contracts below.

use vstd::prelude::*;

verus! {

#[verifier::external_type_specification]
#[verifier::external_body]
pub struct ExValue(serde_json::Value);

#[verifier::external_type_specification]
#[verifier::external_body]
#[verifier::reject_recursive_types(K)]
#[verifier::reject_recursive_types(V)]
pub struct ExJsonMap<K, V>(serde_json::Map<K, V>);

/// The text `serde_json::to_string` produces for a value.
pub uninterp spec fn json_of_value(v: serde_json::Value) -> Seq<char>;

/// What `serde_json::Value::get` returns for a string key: the member of an
/// object under that key, `None` for absent keys and for non-objects.
pub uninterp spec fn obj_field(v: serde_json::Value, k: Seq<char>) -> Option<serde_json::Value>;

/// What `serde_json::Map::get` returns for a key.
pub uninterp spec fn map_field(m: serde_json::Map<String, serde_json::Value>, k: Seq<char>) -> Option<
    serde_json::Value,
>;

/// What `serde_json::Value::as_str` returns: the characters of a JSON
/// string, `None` for every other kind of value.
pub uninterp spec fn str_of_value(v: serde_json::Value) -> Option<Seq<char>>;

/// What `serde_json::Value::as_i64` returns: the value of an integer number
/// representable as an `i64`, otherwise `None`.
pub uninterp spec fn int_of_value(v: serde_json::Value) -> Option<int>;

/// What `serde_json::Value::as_array` returns: the elements of a JSON
/// array, `None` for every other kind of value.
pub uninterp spec fn elems_of_value(v: serde_json::Value) -> Option<Seq<serde_json::Value>>;

/// Whether the value is a JSON object (`serde_json::Value::is_object`).
pub uninterp spec fn is_obj(v: serde_json::Value) -> bool;

/// Whether the value is JSON `null` (`serde_json::Value::is_null`).
pub uninterp spec fn is_null_value(v: serde_json::Value) -> bool;

/// Whether the value's printed text reads back: the result of the
/// print-then-parse composition `from_str(to_string(v))` being `Ok`.
/// `serde_json`'s parser enforces a nesting limit its printer does not,
/// so this holds of a value exactly when the limit admits it.
pub uninterp spec fn depth_ok(v: serde_json::Value) -> bool;

/// Whether the value's printed text reads back even from inside one more
/// enclosing object: print-then-parse succeeds with a nesting level to
/// spare.
pub uninterp spec fn member_ok(v: serde_json::Value) -> bool;

/// What `serde_json::from_str::<Value>` yields on a text: the parsed
/// value, or nothing when the text is not JSON the parser accepts. A
/// function of the text alone.
pub uninterp spec fn text_value(s: Seq<char>) -> Option<serde_json::Value>;

/// Relies on `serde_json::to_string`, which for `serde_json::Value`
/// cannot fail and never produces an empty text.
#[verifier::external_body]
pub fn value_to_json(v: &serde_json::Value) -> (r: String)
    ensures
        r@ == json_of_value(*v),
        r@.len() > 0,
{
    serde_json::to_string(v).unwrap()
}

/// Holds when a parse outcome agrees with the text: the outcome is
/// exactly `text_value` of the text; a successful parse of a printed
/// text yields that text's value; and the print of a value the parser's
/// nesting limit admits always parses.
pub open spec fn reads_back(s: Seq<char>, r: Result<serde_json::Value, String>) -> bool {
    &&& (r matches Ok(u) ==> depth_ok(u) && (forall|v: serde_json::Value|
        s == json_of_value(v) ==> u == v))
    &&& (forall|v: serde_json::Value|
        s == json_of_value(v) && depth_ok(v) ==> r == Result::<serde_json::Value, String>::Ok(v))
}

/// Relies on `serde_json::from_str::<Value>`, and on printing and
/// reading agreeing on `Value`: the outcome is `text_value` of the
/// text; what parses back from a printed text is that text's value; a
/// parsed value's own print parses again (`depth_ok`); and the print of
/// any `depth_ok` value parses.
#[verifier::external_body]
pub fn parse_value(s: &str) -> (r: Result<serde_json::Value, String>)
    ensures
        reads_back(s@, r),
        r matches Ok(u) ==> text_value(s@) == Some(u),
        r is Err ==> text_value(s@) is None,
{
    match serde_json::from_str::<serde_json::Value>(s) {
        Ok(v) => Ok(v),
        Err(e) => Err(e.to_string()),
    }
}

/// Relies on `serde_json::Value::get` for a string key. A member sits
/// one level below the whole, so it keeps a nesting level to spare.
#[verifier::external_body]
pub fn value_get<'a>(v: &'a serde_json::Value, k: &str) -> (r: Option<&'a serde_json::Value>)
    ensures
        match r {
            Some(f) => obj_field(*v, k@) == Some(*f),
            None => obj_field(*v, k@) is None,
        },
        (depth_ok(*v) || member_ok(*v)) ==> (r matches Some(f) ==> member_ok(*f)),
{
    v.get(k)
}

/// Relies on `serde_json::Value::as_str`.
#[verifier::external_body]
pub fn value_as_str<'a>(v: &'a serde_json::Value) -> (r: Option<&'a str>)
    ensures
        match r {
            Some(s) => str_of_value(*v) == Some(s@),
            None => str_of_value(*v) is None,
        },
{
    v.as_str()
}

/// Relies on `serde_json::Value::as_i64`.
#[verifier::external_body]
pub fn value_as_i64(v: &serde_json::Value) -> (r: Option<i64>)
    ensures
        match r {
            Some(i) => int_of_value(*v) == Some(i as int),
            None => int_of_value(*v) is None,
        },
{
    v.as_i64()
}

/// Relies on `serde_json::Value::as_array`. An element sits one level
/// below the array, so it keeps a nesting level to spare.
#[verifier::external_body]
pub fn value_as_array<'a>(v: &'a serde_json::Value) -> (r: Option<&'a Vec<serde_json::Value>>)
    ensures
        match r {
            Some(a) => elems_of_value(*v) == Some(a@),
            None => elems_of_value(*v) is None,
        },
        (depth_ok(*v) || member_ok(*v)) ==> (r matches Some(a) ==> forall|j: int|
            0 <= j < a@.len() ==> member_ok(#[trigger] a@[j])),
{
    v.as_array()
}

/// Relies on `serde_json::Value::is_object`.
#[verifier::external_body]
pub fn value_is_object(v: &serde_json::Value) -> (r: bool)
    ensures
        r == is_obj(*v),
{
    v.is_object()
}

/// Relies on `serde_json::Value::is_null`.
#[verifier::external_body]
pub fn value_is_null(v: &serde_json::Value) -> (r: bool)
    ensures
        r == is_null_value(*v),
{
    v.is_null()
}

/// Relies on `serde_json::Value::clone`, which yields an equal value.
#[verifier::external_body]
pub fn clone_value(v: &serde_json::Value) -> (r: serde_json::Value)
    ensures
        r == *v,
{
    v.clone()
}

/// Relies on `serde_json::Map::new`: the fresh map has no members.
#[verifier::external_body]
pub fn new_json_map() -> (r: serde_json::Map<String, serde_json::Value>)
    ensures
        forall|k: Seq<char>| map_field(r, k) is None,
{
    serde_json::Map::new()
}

/// Relies on `serde_json::Map::insert`: the key now maps to the value and
/// no other member changes.
#[verifier::external_body]
pub fn json_map_insert(
    m: &mut serde_json::Map<String, serde_json::Value>,
    k: &str,
    v: serde_json::Value,
)
    ensures
        map_field(*final(m), k@) == Some(v),
        forall|k2: Seq<char>| k2 != k@ ==> map_field(*final(m), k2) == map_field(*old(m), k2),
{
    m.insert(k.to_owned(), v);
}

/// Relies on the `serde_json::Value::Object` constructor: the members of
/// the object are the members of the map, and the value is of no other
/// kind.
#[verifier::external_body]
pub fn value_of_map(m: serde_json::Map<String, serde_json::Value>) -> (r: serde_json::Value)
    ensures
        is_obj(r),
        !is_null_value(r),
        str_of_value(r) is None,
        int_of_value(r) is None,
        elems_of_value(r) is None,
        forall|k: Seq<char>| obj_field(r, k) == map_field(m, k),
        (forall|k: Seq<char>| #[trigger] map_field(m, k) matches Some(f) ==> member_ok(f))
            ==> depth_ok(r),
{
    serde_json::Value::Object(m)
}

/// Relies on the `serde_json::Value::String` constructor.
#[verifier::external_body]
pub fn value_of_str(s: &str) -> (r: serde_json::Value)
    ensures
        str_of_value(r) == Some(s@),
        !is_obj(r),
        !is_null_value(r),
        int_of_value(r) is None,
        elems_of_value(r) is None,
        member_ok(r),
        depth_ok(r),
{
    serde_json::Value::String(s.to_owned())
}

/// Relies on `serde_json::Value::from` for `i64`: an integer number, read
/// back by `as_i64` as itself.
#[verifier::external_body]
pub fn value_of_i64(i: i64) -> (r: serde_json::Value)
    ensures
        int_of_value(r) == Some(i as int),
        !is_obj(r),
        !is_null_value(r),
        str_of_value(r) is None,
        elems_of_value(r) is None,
        member_ok(r),
        depth_ok(r),
{
    serde_json::Value::from(i)
}

} // verus!
