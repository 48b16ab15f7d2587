//! The decisions of the serializer: which Typst value each part of Serde's
//! data model becomes, and when serialization fails.

use vstd::prelude::*;
use crate::error::SerError;
use crate::typst_value::type_debug;
use crate::text::{i64_to_decimal, int_decimal, nat_decimal, push_decimal, char_to_string};
use crate::value::{
    entries_get, entries_insert, keys_distinct, lemma_typst_image, node_type_name, written, Entries, Node,
    NodeDict,
};

verus! {

/// The message for a `u64` above `i64::MAX`.
pub open spec fn u64_range_message(v: u64) -> Seq<char> {
    "u64 value "@ + nat_decimal(v as nat) + " exceeds Typst integer range (max "@ + int_decimal(
        i64::MAX as int,
    ) + ")"@
}

/// The message for a map key that is neither a string nor an integer, whose
/// Typst type has the long name `long_name`; the type is written as Typst's
/// `Debug` writes a type.
pub open spec fn map_key_message(long_name: Seq<char>) -> Seq<char> {
    "map keys must serialize to string or integer, got "@ + ("Type("@ + long_name + ")"@)
}

/// The message for a map value that comes without a key.
pub open spec fn missing_key_message() -> Seq<char> {
    "serialize_value called before serialize_key"@
}

/// The message for a value that was meant to be a dictionary, whose Typst
/// type has the long name `long_name`.
pub open spec fn not_dict_message(long_name: Seq<char>) -> Seq<char> {
    "expected struct or map to serialize into Dict, got "@ + ("Type("@ + long_name + ")"@)
}

/// The dictionary key that a serialized map key stands for: a string stands
/// for itself, an integer for its decimal numeral; anything else for none.
pub open spec fn map_key_text(key: Node) -> Option<Seq<char>> {
    match key {
        Node::Str(s) => Some(s@),
        Node::Int(i) => Some(int_decimal(i as int)),
        _ => None,
    }
}

/// A dictionary of one entry.
pub open spec fn single_entry(key: Seq<char>, value: Node) -> Entries {
    seq![(key, value)]
}

fn single_entry_dict(key: String, value: Node) -> (d: NodeDict)
    ensures
        d@ == single_entry(key@, value),
{
    let mut d = NodeDict::new();
    d.insert(key, value);
    assert(d@ =~= single_entry(key@, value));
    d
}

/// A one-entry dictionary holds exactly the given key with the given value,
/// unchanged, whatever the value is: one entry, that entry is `(key, value)`,
/// and reading `key` gives `value`.
pub proof fn lemma_single_entry(key: Seq<char>, value: Node)
    ensures
        single_entry(key, value).len() == 1,
        single_entry(key, value)[0] == (key, value),
        entries_get(single_entry(key, value), key) == Some(value),
{
    let s = single_entry(key, value);
    assert(s[0].0 == key);
    assert(crate::value::has_key(s, key));
    assert(crate::value::key_position(s, key) == 0);
}

/// The value of a run of decimal digits, most significant first.
pub open spec fn digits_value(s: Seq<char>) -> nat
    decreases s.len(),
{
    if s.len() == 0 {
        0
    } else {
        digits_value(s.drop_last()) * 10 + ((s.last() as int - '0' as int) as nat)
    }
}

/// Whether `s` has no leading zero (a lone `0` is allowed).
pub open spec fn no_leading_zero(s: Seq<char>) -> bool {
    s.len() == 1 || s[0] != '0'
}

/// Whether every character of `s` is an ASCII digit.
pub open spec fn all_digits(s: Seq<char>) -> bool {
    forall|i: int| 0 <= i < s.len() ==> ('0' as int) <= (#[trigger] s[i] as int) <= ('9' as int)
}

proof fn lemma_nat_numeral_value(n: nat)
    ensures
        digits_value(nat_decimal(n)) == n,
        all_digits(nat_decimal(n)),
        nat_decimal(n).len() >= 1,
        no_leading_zero(nat_decimal(n)),
        n >= 1 ==> nat_decimal(n)[0] != '0',
    decreases n,
{
    crate::text::lemma_nat_decimal_shape(n);
    let s = nat_decimal(n);
    let d = (n % 10) as int;
    assert(s.last() == crate::text::digit_char(d));
    assert((crate::text::digit_char(d) as int) == ('0' as int) + d);
    if n >= 10 {
        lemma_nat_numeral_value(n / 10);
        assert(s.drop_last() == nat_decimal(n / 10));
        assert(digits_value(s) == digits_value(s.drop_last()) * 10 + d);
        assert((n / 10) * 10 + n % 10 == n);
        assert(s[0] == s.drop_last()[0]);
    } else {
        assert(s[0] == crate::text::digit_char(n as int));
        assert(s.drop_last() =~= Seq::<char>::empty());
        assert(digits_value(s) == digits_value(s.drop_last()) * 10 + d);
    }
}

/// Map keys: a string key is kept exactly as it is; an integer key becomes
/// text that reads back as that integer (a `-` exactly when it is negative,
/// then ASCII digits whose value is its magnitude); every other key is refused.
pub proof fn lemma_map_key_text(key: Node)
    ensures
        key matches Node::Str(s) ==> map_key_text(key) == Some(s@),
        key matches Node::Int(i) ==> map_key_text(key) matches Some(t) && (if i < 0 {
            t.len() >= 2 && t[0] == '-' && all_digits(t.drop_first()) && no_leading_zero(
                t.drop_first(),
            ) && digits_value(t.drop_first()) == -(i as int)
        } else {
            t.len() >= 1 && all_digits(t) && no_leading_zero(t) && digits_value(t) == i as int
        }),
        !(key is Str || key is Int) ==> map_key_text(key) is None,
{
    if let Node::Int(i) = key {
        if i < 0 {
            let m = (-(i as int)) as nat;
            lemma_nat_numeral_value(m);
            assert(int_decimal(i as int).drop_first() =~= nat_decimal(m));
        } else {
            lemma_nat_numeral_value(i as nat);
        }
    }
}

/// The serializer that maps Serde's data model onto Typst values.
#[derive(Debug, Clone, Copy)]
pub struct TypstSerializer;

impl TypstSerializer {
    pub fn serialize_bool(self, v: bool) -> (r: Result<Node, SerError>)
        ensures
            r == Ok::<Node, SerError>(Node::Bool(v)),
    {
        Ok(Node::Bool(v))
    }

    pub fn serialize_i8(self, v: i8) -> (r: Result<Node, SerError>)
        ensures
            r == Ok::<Node, SerError>(Node::Int(v as i64)),
    {
        Ok(Node::Int(v as i64))
    }

    pub fn serialize_i16(self, v: i16) -> (r: Result<Node, SerError>)
        ensures
            r == Ok::<Node, SerError>(Node::Int(v as i64)),
    {
        Ok(Node::Int(v as i64))
    }

    pub fn serialize_i32(self, v: i32) -> (r: Result<Node, SerError>)
        ensures
            r == Ok::<Node, SerError>(Node::Int(v as i64)),
    {
        Ok(Node::Int(v as i64))
    }

    pub fn serialize_i64(self, v: i64) -> (r: Result<Node, SerError>)
        ensures
            r == Ok::<Node, SerError>(Node::Int(v)),
    {
        Ok(Node::Int(v))
    }

    pub fn serialize_u8(self, v: u8) -> (r: Result<Node, SerError>)
        ensures
            r == Ok::<Node, SerError>(Node::Int(v as i64)),
    {
        Ok(Node::Int(v as i64))
    }

    pub fn serialize_u16(self, v: u16) -> (r: Result<Node, SerError>)
        ensures
            r == Ok::<Node, SerError>(Node::Int(v as i64)),
    {
        Ok(Node::Int(v as i64))
    }

    pub fn serialize_u32(self, v: u32) -> (r: Result<Node, SerError>)
        ensures
            r == Ok::<Node, SerError>(Node::Int(v as i64)),
    {
        Ok(Node::Int(v as i64))
    }

    /// A `u64` becomes an integer only where it fits in `i64`; above
    /// `i64::MAX` it is refused rather than rounded to a float.
    pub fn serialize_u64(self, v: u64) -> (r: Result<Node, SerError>)
        ensures
            v <= i64::MAX ==> r == Ok::<Node, SerError>(Node::Int(v as i64)),
            v > i64::MAX ==> (r matches Err(e) && e@ == u64_range_message(v)),
    {
        if v <= 9223372036854775807u64 {
            Ok(Node::Int(v as i64))
        } else {
            let mut msg = String::from_str("u64 value ");
            push_decimal(&mut msg, v);
            msg.append(" exceeds Typst integer range (max ");
            let max = i64_to_decimal(9223372036854775807i64);
            msg.append(max.as_str());
            msg.append(")");
            Err(SerError::custom(msg))
        }
    }

    pub fn serialize_char(self, v: char) -> (r: Result<Node, SerError>)
        ensures
            r matches Ok(Node::Str(s)) && s@ == seq![v],
    {
        Ok(Node::Str(char_to_string(v)))
    }

    pub fn serialize_str(self, v: &str) -> (r: Result<Node, SerError>)
        ensures
            r matches Ok(Node::Str(s)) && s@ == v@,
    {
        Ok(Node::Str(String::from_str(v)))
    }

    pub fn serialize_bytes(self, v: &[u8]) -> (r: Result<Node, SerError>)
        ensures
            r matches Ok(Node::Bytes(b)) && b@ == v@,
    {
        Ok(Node::Bytes(vstd::slice::slice_to_vec(v)))
    }

    pub fn serialize_none(self) -> (r: Result<Node, SerError>)
        ensures
            r == Ok::<Node, SerError>(Node::NoneValue),
    {
        Ok(Node::NoneValue)
    }

    pub fn serialize_unit(self) -> (r: Result<Node, SerError>)
        ensures
            r == Ok::<Node, SerError>(Node::NoneValue),
    {
        Ok(Node::NoneValue)
    }

    pub fn serialize_unit_struct(self, _name: &'static str) -> (r: Result<Node, SerError>)
        ensures
            r == Ok::<Node, SerError>(Node::NoneValue),
    {
        Ok(Node::NoneValue)
    }

    /// A unit variant becomes the string of its name.
    pub fn serialize_unit_variant(
        self,
        _name: &'static str,
        _variant_index: u32,
        variant: &'static str,
    ) -> (r: Result<Node, SerError>)
        ensures
            r matches Ok(Node::Str(s)) && s@ == variant@,
    {
        Ok(Node::Str(String::from_str(variant)))
    }

    /// A newtype variant becomes a dictionary of one entry, from the variant's
    /// name to its serialized content.
    pub fn serialize_newtype_variant(
        self,
        _name: &'static str,
        _variant_index: u32,
        variant: &'static str,
        value: Node,
    ) -> (r: Result<Node, SerError>)
        ensures
            r matches Ok(Node::Dict(d)) && d@ == single_entry(variant@, value) && d@.len() == 1
                && d@[0] == (variant@, value) && entries_get(d@, variant@) == Some(value),
    {
        let d = single_entry_dict(String::from_str(variant), value);
        proof {
            lemma_single_entry(variant@, value);
        }
        Ok(Node::Dict(d))
    }

    pub fn serialize_seq(self, len: Option<usize>) -> (r: Result<SeqSerializer, SerError>)
        ensures
            r matches Ok(s) && s@ == Seq::<Node>::empty(),
    {
        Ok(SeqSerializer { items: Vec::with_capacity(len.unwrap_or(0)) })
    }

    pub fn serialize_tuple(self, len: usize) -> (r: Result<SeqSerializer, SerError>)
        ensures
            r matches Ok(s) && s@ == Seq::<Node>::empty(),
    {
        Ok(SeqSerializer { items: Vec::with_capacity(len) })
    }

    pub fn serialize_tuple_struct(self, _name: &'static str, len: usize) -> (r: Result<
        SeqSerializer,
        SerError,
    >)
        ensures
            r matches Ok(s) && s@ == Seq::<Node>::empty(),
    {
        Ok(SeqSerializer { items: Vec::with_capacity(len) })
    }

    pub fn serialize_tuple_variant(
        self,
        _name: &'static str,
        _variant_index: u32,
        variant: &'static str,
        len: usize,
    ) -> (r: Result<TupleVariantSerializer, SerError>)
        ensures
            r matches Ok(s) && s@ == (variant@, Seq::<Node>::empty()),
    {
        Ok(
            TupleVariantSerializer {
                variant: String::from_str(variant),
                items: Vec::with_capacity(len),
            },
        )
    }

    pub fn serialize_map(self, _len: Option<usize>) -> (r: Result<MapSerializer, SerError>)
        ensures
            r matches Ok(m) && m@ == (Seq::<(Seq<char>, Node)>::empty(), None::<Seq<char>>),
    {
        Ok(MapSerializer { dict: NodeDict::new(), current_key: None })
    }

    pub fn serialize_struct(self, _name: &'static str, _len: usize) -> (r: Result<
        StructSerializer,
        SerError,
    >)
        ensures
            r matches Ok(s) && s@ == Seq::<(Seq<char>, Node)>::empty(),
    {
        Ok(StructSerializer { dict: NodeDict::new() })
    }

    pub fn serialize_struct_variant(
        self,
        _name: &'static str,
        _variant_index: u32,
        variant: &'static str,
        _len: usize,
    ) -> (r: Result<StructVariantSerializer, SerError>)
        ensures
            r matches Ok(s) && s@ == (variant@, Seq::<(Seq<char>, Node)>::empty()),
    {
        Ok(StructVariantSerializer { variant: String::from_str(variant), dict: NodeDict::new() })
    }
}

/// Collects the elements of a sequence, tuple or tuple struct.
pub struct SeqSerializer {
    items: Vec<Node>,
}

impl View for SeqSerializer {
    type V = Seq<Node>;

    closed spec fn view(&self) -> Seq<Node> {
        self.items@
    }
}

impl SeqSerializer {
    pub fn serialize_element(&mut self, value: Node) -> (r: Result<(), SerError>)
        ensures
            r is Ok,
            final(self)@ == old(self)@.push(value),
    {
        self.items.push(value);
        Ok(())
    }

    pub fn serialize_field(&mut self, value: Node) -> (r: Result<(), SerError>)
        ensures
            r is Ok,
            final(self)@ == old(self)@.push(value),
    {
        self.items.push(value);
        Ok(())
    }

    /// The collected elements, in order, as an array.
    pub fn end(self) -> (r: Result<Node, SerError>)
        ensures
            r matches Ok(Node::Array(a)) && a@ == self@,
    {
        Ok(Node::Array(self.items))
    }
}

/// Collects the fields of a tuple variant like `Enum::Variant(a, b, c)`.
pub struct TupleVariantSerializer {
    variant: String,
    items: Vec<Node>,
}

impl View for TupleVariantSerializer {
    type V = (Seq<char>, Seq<Node>);

    closed spec fn view(&self) -> (Seq<char>, Seq<Node>) {
        (self.variant@, self.items@)
    }
}

impl TupleVariantSerializer {
    pub fn serialize_field(&mut self, value: Node) -> (r: Result<(), SerError>)
        ensures
            r is Ok,
            final(self)@ == (old(self)@.0, old(self)@.1.push(value)),
    {
        self.items.push(value);
        Ok(())
    }

    /// A dictionary of one entry, from the variant's name to the array of its
    /// fields.
    pub fn end(self) -> (r: Result<Node, SerError>)
        ensures
            r matches Ok(Node::Dict(d)) && d@.len() == 1 && d@[0].0 == self@.0 && (
            d@[0].1 matches Node::Array(a) && a@ == self@.1),
    {
        let items = Node::Array(self.items);
        let ghost inner = items;
        let d = single_entry_dict(self.variant, items);
        assert(d@[0].1 == inner);
        Ok(Node::Dict(d))
    }
}

/// Collects the entries of a map whose keys are strings or integers.
pub struct MapSerializer {
    dict: NodeDict,
    current_key: Option<String>,
}

impl View for MapSerializer {
    /// The entries so far, and the key that waits for its value.
    type V = (Entries, Option<Seq<char>>);

    closed spec fn view(&self) -> (Entries, Option<Seq<char>>) {
        (
            self.dict@,
            match self.current_key {
                Some(k) => Some(k@),
                None => None,
            },
        )
    }
}

impl MapSerializer {
    /// Takes the serialized key of the next entry: a string is used as it is,
    /// an integer as its decimal numeral; any other key is refused and leaves
    /// the map as it was.
    pub fn serialize_key(&mut self, key: Node) -> (r: Result<(), SerError>)
        ensures
            match map_key_text(key) {
                Some(k) => r is Ok && final(self)@ == (old(self)@.0, Some(k)),
                None => (r matches Err(e) && e@ == map_key_message(node_type_name(key)))
                    && final(self)@ == old(self)@,
            },
            key matches Node::Str(s) ==> r is Ok && final(self)@ == (old(self)@.0, Some(s@)),
            key matches Node::Int(i) ==> r is Ok && final(self)@ == (
                old(self)@.0,
                Some(int_decimal(i as int)),
            ),
    {
        let ghost k = key;
        let key_str = match key {
            Node::Str(s) => s,
            Node::Int(i) => i64_to_decimal(i),
            other => {
                let typst = other.into_typst();
                proof {
                    lemma_typst_image(k, typst);
                }
                let mut msg = String::from_str("map keys must serialize to string or integer, got ");
                let name = type_debug(&typst);
                msg.append(name.as_str());
                return Err(SerError::custom(msg));
            },
        };
        self.current_key = Some(key_str);
        Ok(())
    }

    /// Takes the key that waits for its value; without one, serialization of
    /// the value fails.
    pub fn take_key(&mut self) -> (r: Result<String, SerError>)
        ensures
            final(self)@ == (old(self)@.0, None::<Seq<char>>),
            match old(self)@.1 {
                Some(k) => r matches Ok(s) && s@ == k,
                None => r matches Err(e) && e@ == missing_key_message(),
            },
    {
        match self.current_key.take() {
            Some(k) => Ok(k),
            None => Err(SerError::custom(String::from_str("serialize_value called before serialize_key"))),
        }
    }

    /// Stores the serialized value under `key`.
    pub fn insert_entry(&mut self, key: String, value: Node)
        ensures
            final(self)@ == (entries_insert(old(self)@.0, key@, value), old(self)@.1),
            written(old(self)@.0, final(self)@.0, key@, value),
    {
        self.dict.insert(key, value);
    }

    /// The collected entries as a dictionary.
    pub fn end(self) -> (r: Result<Node, SerError>)
        ensures
            r matches Ok(Node::Dict(d)) && d@ == self@.0,
    {
        Ok(Node::Dict(self.dict))
    }
}

/// Collects the named fields of a struct.
pub struct StructSerializer {
    dict: NodeDict,
}

impl View for StructSerializer {
    type V = Entries;

    closed spec fn view(&self) -> Entries {
        self.dict@
    }
}

impl StructSerializer {
    /// Stores the serialized field `value` under the field's name.
    pub fn serialize_field(&mut self, key: &'static str, value: Node) -> (r: Result<(), SerError>)
        ensures
            r is Ok,
            final(self)@ == entries_insert(old(self)@, key@, value),
            written(old(self)@, final(self)@, key@, value),
    {
        self.dict.insert(String::from_str(key), value);
        Ok(())
    }

    /// The fields as a dictionary.
    pub fn end(self) -> (r: Result<Node, SerError>)
        ensures
            r matches Ok(Node::Dict(d)) && d@ == self@,
    {
        Ok(Node::Dict(self.dict))
    }
}

/// Collects the fields of a struct variant like `Enum::Variant { field: value }`.
pub struct StructVariantSerializer {
    variant: String,
    dict: NodeDict,
}

impl View for StructVariantSerializer {
    type V = (Seq<char>, Entries);

    closed spec fn view(&self) -> (Seq<char>, Entries) {
        (self.variant@, self.dict@)
    }
}

impl StructVariantSerializer {
    /// Stores the serialized field `value` under the field's name.
    pub fn serialize_field(&mut self, key: &'static str, value: Node) -> (r: Result<(), SerError>)
        ensures
            r is Ok,
            final(self)@ == (old(self)@.0, entries_insert(old(self)@.1, key@, value)),
            written(old(self)@.1, final(self)@.1, key@, value),
    {
        self.dict.insert(String::from_str(key), value);
        Ok(())
    }

    /// A dictionary of one entry, from the variant's name to the dictionary of
    /// its fields.
    pub fn end(self) -> (r: Result<Node, SerError>)
        ensures
            r matches Ok(Node::Dict(outer)) && outer@.len() == 1 && outer@[0].0 == self@.0 && (
            outer@[0].1 matches Node::Dict(inner) && inner@ == self@.1),
    {
        let inner = Node::Dict(self.dict);
        let ghost inner_view = inner;
        let outer = single_entry_dict(self.variant, inner);
        assert(outer@[0].1 == inner_view);
        Ok(Node::Dict(outer))
    }
}

/// The dictionary that a serialized value is, or the error that it is not
/// one.
pub fn expect_dict(value: Node) -> (r: Result<NodeDict, SerError>)
    ensures
        match value {
            Node::Dict(d) => r == Ok::<NodeDict, SerError>(d) && keys_distinct(d@),
            _ => r matches Err(e) && e@ == not_dict_message(node_type_name(value)),
        },
{
    let ghost v = value;
    match value {
        Node::Dict(d) => {
            proof {
                use_type_invariant(&d);
                d.lemma_wf();
            }
            Ok(d)
        },
        other => {
            let typst = other.into_typst();
            proof {
                lemma_typst_image(v, typst);
            }
            let mut msg = String::from_str("expected struct or map to serialize into Dict, got ");
            let name = type_debug(&typst);
            msg.append(name.as_str());
            Err(SerError::custom(msg))
        },
    }
}

} // verus!
