//! Concrete checks of the library's contracts and laws.

use typst::foundations::{Array, Bytes, Dict, Str, Value};
use typst_serde::error::SerError;
use typst_serde::serializer::{expect_dict, TypstSerializer};
use typst_serde::text::{i64_to_decimal, u64_to_decimal};
use typst_serde::value::{Node, NodeDict};

fn ser() -> TypstSerializer {
    TypstSerializer
}

#[test]
fn type_names_match_typst() {
    let cases: Vec<(Node, Value)> = vec![
        (Node::NoneValue, Value::None),
        (Node::Bool(true), Value::Bool(true)),
        (Node::Float(Value::Float(1.5)), Value::Float(1.5)),
        (Node::Bytes(vec![1u8]), Value::Bytes(Bytes::new(vec![1u8]))),
        (Node::Array(vec![]), Value::Array(Array::new())),
        (Node::Dict(NodeDict::new()), Value::Dict(Dict::new())),
    ];
    for (node, value) in cases {
        let mut m = ser().serialize_map(None).unwrap();
        let err = m.serialize_key(node).unwrap_err();
        assert_eq!(
            err.message(),
            format!("map keys must serialize to string or integer, got {:?}", value.ty())
        );
    }
    let err = expect_dict(Node::Str("s".to_string())).unwrap_err();
    assert_eq!(
        err.message(),
        format!(
            "expected struct or map to serialize into Dict, got {:?}",
            Value::Str(Str::from("s")).ty()
        )
    );
}

#[test]
fn nested_dictionary_keys_survive_conversion() {
    let mut inner = NodeDict::new();
    inner.insert("b".to_string(), Node::Int(2));
    inner.insert("a".to_string(), Node::Int(1));
    match Node::Array(vec![Node::Dict(inner)]).into_typst() {
        Value::Array(arr) => match arr.iter().next().unwrap() {
            Value::Dict(d) => {
                let keys: Vec<String> = d.iter().map(|(k, _)| k.to_string()).collect();
                assert_eq!(keys, vec!["b".to_string(), "a".to_string()]);
            }
            _ => panic!("expected a dictionary"),
        },
        _ => panic!("expected an array"),
    }
}

#[test]
fn decimal_numerals() {
    for v in [0i64, 7, -7, 10, -10, 123456789, i64::MAX, i64::MIN] {
        assert_eq!(i64_to_decimal(v), v.to_string());
    }
    for v in [0u64, 9, 10, 99, 100, u64::MAX] {
        assert_eq!(u64_to_decimal(v), v.to_string());
    }
}

#[test]
fn integer_widths() {
    assert_eq!(ser().serialize_i8(-128).unwrap(), Node::Int(-128));
    assert_eq!(ser().serialize_i16(i16::MIN).unwrap(), Node::Int(-32768));
    assert_eq!(ser().serialize_i64(i64::MIN).unwrap(), Node::Int(i64::MIN));
    assert_eq!(ser().serialize_u8(255).unwrap(), Node::Int(255));
    assert_eq!(ser().serialize_u16(u16::MAX).unwrap(), Node::Int(65535));
    assert_eq!(ser().serialize_u32(u32::MAX).unwrap(), Node::Int(4294967295));
    assert_eq!(ser().serialize_u64(0).unwrap(), Node::Int(0));
}

#[test]
fn u64_error_message() {
    let err = ser().serialize_u64(u64::MAX).unwrap_err();
    assert_eq!(
        err.message(),
        "u64 value 18446744073709551615 exceeds Typst integer range (max 9223372036854775807)"
    );
    let err = ser().serialize_u64(9223372036854775808).unwrap_err();
    assert_eq!(
        err.message(),
        "u64 value 9223372036854775808 exceeds Typst integer range (max 9223372036854775807)"
    );
}

#[test]
fn units_are_none() {
    assert_eq!(ser().serialize_unit_struct("Unit").unwrap(), Node::NoneValue);
    assert_eq!(ser().serialize_none().unwrap().into_typst(), Value::None);
}

#[test]
fn strings_chars_and_bytes() {
    assert_eq!(ser().serialize_char('ß').unwrap(), Node::Str("ß".to_string()));
    assert_eq!(ser().serialize_str("").unwrap(), Node::Str(String::new()));
    let bytes = [0u8, 1, 2, 255];
    assert_eq!(ser().serialize_bytes(&bytes).unwrap(), Node::Bytes(vec![0, 1, 2, 255]));
    assert_eq!(
        ser().serialize_bytes(&bytes).unwrap().into_typst(),
        Value::Bytes(Bytes::new(vec![0u8, 1, 2, 255]))
    );
}

#[test]
fn conversion_keeps_kind_and_contents() {
    assert_eq!(Node::Bool(false).into_typst(), Value::Bool(false));
    assert_eq!(Node::Int(-5).into_typst(), Value::Int(-5));
    assert_eq!(Node::Str("abc".to_string()).into_typst(), Value::Str(Str::from("abc")));
    assert_eq!(Node::Float(Value::Float(-0.5)).into_typst(), Value::Float(-0.5));
    let arr = Node::Array(vec![Node::Int(1), Node::Str("x".to_string()), Node::NoneValue]);
    let expected: Array = vec![Value::Int(1), Value::Str(Str::from("x")), Value::None]
        .into_iter()
        .collect();
    assert_eq!(arr.into_typst(), Value::Array(expected));
}

#[test]
fn dict_insert_replaces_in_place() {
    let mut d = NodeDict::new();
    d.insert("a".to_string(), Node::Int(1));
    d.insert("b".to_string(), Node::Int(2));
    d.insert("a".to_string(), Node::Int(3));
    assert_eq!(d.len(), 2);
    assert_eq!(d.get("a"), Some(&Node::Int(3)));
    assert_eq!(d.get("b"), Some(&Node::Int(2)));
    assert_eq!(d.get("c"), None);
    let typst = d.into_typst();
    let keys: Vec<String> = typst.iter().map(|(k, _)| k.to_string()).collect();
    assert_eq!(keys, vec!["a".to_string(), "b".to_string()]);
    assert_eq!(typst.get("a").unwrap(), &Value::Int(3));
}

#[test]
fn read_after_write() {
    let mut d = NodeDict::new();
    d.insert("k".to_string(), Node::Bool(true));
    assert_eq!(d.get("k"), Some(&Node::Bool(true)));
    d.insert("other".to_string(), Node::Int(9));
    assert_eq!(d.get("k"), Some(&Node::Bool(true)));
    assert_eq!(d.get("other"), Some(&Node::Int(9)));
}

#[test]
fn struct_fields_keep_order_and_last_value() {
    let mut s = ser().serialize_struct("S", 3).unwrap();
    s.serialize_field("z", Node::Int(1)).unwrap();
    s.serialize_field("a", Node::Int(2)).unwrap();
    s.serialize_field("z", Node::Int(3)).unwrap();
    let dict = expect_dict(s.end().unwrap()).unwrap();
    assert_eq!(dict.len(), 2);
    let typst = dict.into_typst();
    let keys: Vec<String> = typst.iter().map(|(k, _)| k.to_string()).collect();
    assert_eq!(keys, vec!["z".to_string(), "a".to_string()]);
    assert_eq!(typst.get("z").unwrap(), &Value::Int(3));
}

#[test]
fn integer_keys_become_decimal_strings() {
    let mut m = ser().serialize_map(None).unwrap();
    m.serialize_key(Node::Int(-12)).unwrap();
    assert_eq!(m.take_key().unwrap(), "-12");
    m.serialize_key(Node::Int(i64::MIN)).unwrap();
    assert_eq!(m.take_key().unwrap(), "-9223372036854775808");
    m.serialize_key(Node::Int(0)).unwrap();
    assert_eq!(m.take_key().unwrap(), "0");
}

#[test]
fn integer_key_and_its_numeral_share_an_entry() {
    let mut m = ser().serialize_map(None).unwrap();
    m.serialize_key(Node::Int(1)).unwrap();
    let k = m.take_key().unwrap();
    m.insert_entry(k, Node::Int(10));
    m.serialize_key(Node::Str("1".to_string())).unwrap();
    let k = m.take_key().unwrap();
    m.insert_entry(k, Node::Int(20));
    let dict = expect_dict(m.end().unwrap()).unwrap();
    assert_eq!(dict.len(), 1);
    assert_eq!(dict.get("1"), Some(&Node::Int(20)));
}

#[test]
fn rejected_key_messages() {
    let mut m = ser().serialize_map(None).unwrap();
    for (node, name) in [
        (Node::NoneValue, "Type(none)"),
        (Node::Bool(true), "Type(boolean)"),
        (Node::Bytes(vec![1]), "Type(bytes)"),
        (Node::Array(vec![]), "Type(array)"),
        (Node::Dict(NodeDict::new()), "Type(dictionary)"),
        (Node::Float(Value::Float(2.0)), "Type(float)"),
    ] {
        let err = m.serialize_key(node).unwrap_err();
        assert_eq!(
            err.message(),
            format!("map keys must serialize to string or integer, got {}", name)
        );
    }
    // A refused key leaves no key waiting.
    let err = m.take_key().unwrap_err();
    assert_eq!(err.message(), "serialize_value called before serialize_key");
}

#[test]
fn later_key_replaces_earlier() {
    let mut m = ser().serialize_map(None).unwrap();
    m.serialize_key(Node::Str("first".to_string())).unwrap();
    m.serialize_key(Node::Str("second".to_string())).unwrap();
    assert_eq!(m.take_key().unwrap(), "second");
    assert!(m.take_key().is_err());
}

#[test]
fn value_without_key() {
    let mut m = ser().serialize_map(None).unwrap();
    let err = m.take_key().unwrap_err();
    assert_eq!(err.message(), "serialize_value called before serialize_key");
}

#[test]
fn not_a_dict_messages() {
    let err = expect_dict(Node::Array(vec![Node::Int(1)])).unwrap_err();
    assert_eq!(
        err.message(),
        "expected struct or map to serialize into Dict, got Type(array)"
    );
    let err = expect_dict(Node::Int(1)).unwrap_err();
    assert_eq!(
        err.message(),
        "expected struct or map to serialize into Dict, got Type(integer)"
    );
    let mut d = NodeDict::new();
    d.insert("x".to_string(), Node::Int(1));
    let got = expect_dict(Node::Dict(d)).unwrap();
    assert_eq!(got.get("x"), Some(&Node::Int(1)));
}

#[test]
fn variant_shapes() {
    let nt = ser().serialize_newtype_variant("E", 0, "V", Node::Bool(true)).unwrap();
    match nt {
        Node::Dict(d) => {
            assert_eq!(d.len(), 1);
            assert_eq!(d.get("V"), Some(&Node::Bool(true)));
        }
        _ => panic!("expected a dictionary"),
    }

    let mut tv = ser().serialize_tuple_variant("E", 1, "T", 2).unwrap();
    tv.serialize_field(Node::Int(1)).unwrap();
    tv.serialize_field(Node::Int(2)).unwrap();
    match tv.end().unwrap() {
        Node::Dict(d) => {
            assert_eq!(d.len(), 1);
            assert_eq!(d.get("T"), Some(&Node::Array(vec![Node::Int(1), Node::Int(2)])));
        }
        _ => panic!("expected a dictionary"),
    }

    let mut sv = ser().serialize_struct_variant("E", 2, "S", 1).unwrap();
    sv.serialize_field("f", Node::Int(5)).unwrap();
    match sv.end().unwrap() {
        Node::Dict(d) => {
            assert_eq!(d.len(), 1);
            match d.get("S") {
                Some(Node::Dict(inner)) => assert_eq!(inner.get("f"), Some(&Node::Int(5))),
                _ => panic!("expected an inner dictionary"),
            }
        }
        _ => panic!("expected a dictionary"),
    }
}

#[test]
fn tuples_are_arrays() {
    let mut t = ser().serialize_tuple(2).unwrap();
    t.serialize_element(Node::Int(1)).unwrap();
    t.serialize_element(Node::Bool(false)).unwrap();
    assert_eq!(t.end().unwrap(), Node::Array(vec![Node::Int(1), Node::Bool(false)]));
    let mut ts = ser().serialize_tuple_struct("TS", 1).unwrap();
    ts.serialize_field(Node::Int(4)).unwrap();
    assert_eq!(ts.end().unwrap(), Node::Array(vec![Node::Int(4)]));
}

#[test]
fn custom_error_message() {
    let e = SerError::custom("boom".to_string());
    assert_eq!(e.message(), "boom");
}
