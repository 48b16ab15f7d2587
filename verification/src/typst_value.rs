//! The Typst runtime values that this library hands out, and the Typst
//! constructors it calls to build them.

use vstd::prelude::*;
use typst::foundations::{Array, Bytes, Dict, Str, Value};

verus! {

/// Typst's runtime value, `typst::foundations::Value`, carried opaquely.
#[verifier::external_type_specification]
#[verifier::external_body]
pub struct ExTypstValue(typst::foundations::Value);

/// Typst's dictionary, `typst::foundations::Dict`, carried opaquely.
#[verifier::external_type_specification]
#[verifier::external_body]
pub struct ExTypstDict(typst::foundations::Dict);

/// The long name of the type of the Typst value `v`, as
/// `v.ty().long_name()` gives it (for example `none` or `dictionary`). Typst
/// derives it from the type's title in its `#[ty]` declaration, lower-cased.
pub uninterp spec fn typst_type_name(v: Value) -> Seq<char>;

/// The Typst value `Value::Bool(b)`, as `bool_value` builds it.
pub uninterp spec fn typst_bool(b: bool) -> Value;

/// The Typst value `Value::Int(i)`, as `int_value` builds it.
pub uninterp spec fn typst_int(i: i64) -> Value;

/// The Typst string value holding the characters `s`, as `str_value` builds it.
pub uninterp spec fn typst_str(s: Seq<char>) -> Value;

/// The Typst bytes value holding `b`, as `bytes_value` builds it.
pub uninterp spec fn typst_bytes(b: Seq<u8>) -> Value;

/// The Typst array value holding `items` in order, as `array_value` builds it.
pub uninterp spec fn typst_array(items: Seq<Value>) -> Value;

/// The dictionary that `Dict::insert` leaves behind when it inserts the pair
/// `(key, value)` into `d`.
pub uninterp spec fn typst_dict_insert(d: Dict, key: Seq<char>, value: Value) -> Dict;

/// The keys of the Typst dictionary `d`, in the dictionary's order.
pub uninterp spec fn typst_dict_keys(d: Dict) -> Seq<Seq<char>>;

/// The Typst value `Value::Dict(d)`, as `dict_value` builds it.
pub uninterp spec fn typst_dict_value(d: Dict) -> Value;

/// Builds the variant `Value::None`. Claimed: its type is Typst's `none`
/// (`Value::ty` gives `Type::of::<NoneValue>()`, whose long name is `none`).
#[verifier::external_body]
pub(crate) fn none_value() -> (r: Value)
    ensures
        typst_type_name(r) == "none"@,
{
    Value::None
}

/// Builds the variant `Value::Bool(b)`. Claimed: the result depends on `b`
/// alone, and its type is `boolean` (`bool` is declared with title `Boolean`).
#[verifier::external_body]
pub(crate) fn bool_value(b: bool) -> (r: Value)
    ensures
        r == typst_bool(b),
        typst_type_name(r) == "boolean"@,
{
    Value::Bool(b)
}

/// Builds the variant `Value::Int(i)`. Claimed: the result depends on `i`
/// alone, and its type is `integer` (`i64` is declared with title `Integer`).
#[verifier::external_body]
pub(crate) fn int_value(i: i64) -> (r: Value)
    ensures
        r == typst_int(i),
        typst_type_name(r) == "integer"@,
{
    Value::Int(i)
}

/// Calls `Str::from(String)` and builds the variant `Value::Str`. Claimed: the
/// result depends on the characters of `s` alone (`Str` wraps an `EcoString`
/// made from them), and its type is `string` (title `String`).
#[verifier::external_body]
pub(crate) fn str_value(s: String) -> (r: Value)
    ensures
        r == typst_str(s@),
        typst_type_name(r) == "string"@,
{
    Value::Str(Str::from(s))
}

/// Calls `Bytes::new(Vec<u8>)` and builds the variant `Value::Bytes`. Claimed:
/// the result depends on the bytes of `b` alone (`Bytes` wraps them as they
/// are), and its type is `bytes`.
#[verifier::external_body]
pub(crate) fn bytes_value(b: Vec<u8>) -> (r: Value)
    ensures
        r == typst_bytes(b@),
        typst_type_name(r) == "bytes"@,
{
    Value::Bytes(Bytes::new(b))
}

/// Calls `Array::from_iter` (an `EcoVec` collected from the items) and builds
/// the variant `Value::Array`. Claimed: the result depends on `items`, in
/// their order, alone, and its type is `array`.
#[verifier::external_body]
pub(crate) fn array_value(items: Vec<Value>) -> (r: Value)
    ensures
        r == typst_array(items@),
        typst_type_name(r) == "array"@,
{
    Value::Array(Array::from_iter(items))
}

/// Calls `Dict::new()`. Claimed: the dictionary has no keys.
#[verifier::external_body]
pub(crate) fn dict_new() -> (r: Dict)
    ensures
        typst_dict_keys(r) == Seq::<Seq<char>>::empty(),
{
    Dict::new()
}

/// Calls `Dict::insert` with the key converted by `Str::from(String)`. Claimed:
/// the dictionary afterwards depends on the dictionary before, the key's
/// characters and the value alone; a key already present keeps its place, a
/// new key goes last (as `IndexMap::insert`, which `Dict::insert` calls,
/// documents). Not stated: what the values of the dictionary are, since the
/// contents of a Typst value are opaque here.
#[verifier::external_body]
pub(crate) fn dict_insert(d: &mut Dict, key: String, value: Value)
    ensures
        *final(d) == typst_dict_insert(*old(d), key@, value),
        typst_dict_keys(*final(d)) == if typst_dict_keys(*old(d)).contains(key@) {
            typst_dict_keys(*old(d))
        } else {
            typst_dict_keys(*old(d)).push(key@)
        },
{
    d.insert(Str::from(key), value)
}

/// Builds the variant `Value::Dict(d)`. Claimed: the result depends on `d`
/// alone, and its type is `dictionary` (`Dict` is declared with that name).
#[verifier::external_body]
pub(crate) fn dict_value(d: Dict) -> (r: Value)
    ensures
        r == typst_dict_value(d),
        typst_type_name(r) == "dictionary"@,
{
    Value::Dict(d)
}

/// Writes the `Debug` text of `v.ty()`, as `format!("{:?}", v.ty())` does.
/// Claimed: the text is `Type(`, the long name of the type of `v`, and `)`,
/// which is what Typst's `impl Debug for Type` writes.
#[verifier::external_body]
pub(crate) fn type_debug(v: &Value) -> (r: String)
    ensures
        r@ == "Type("@ + typst_type_name(*v) + ")"@,
{
    format!("{:?}", v.ty())
}

} // verus!
