use cbor_tool::convert::to_display_tree;
use cbor_tool::text::json_string;
use cbor_tool::tree::DisplayTree;
use cbor_tool::value::Number;
use cbor_tool::value::Value;

fn num(positive: bool, mantissa: u64, exponent: i16) -> Number {
    Number { positive, mantissa, exponent }
}

#[test]
fn converts_every_variant_without_failing() {
    let v = Value::Array(vec![
        Value::Bool(true),
        Value::Signed(-3),
        Value::Unsigned(9),
        Value::Float(num(true, 25, -1)),
        Value::Null,
        Value::Undefined,
        Value::Unicode(String::from("hey")),
        Value::Bytes(vec![1, 2, 3]),
        Value::Mapping(vec![(Value::Unsigned(1), Value::Bool(false))]),
        Value::Tag(7, Box::new(Value::Null)),
    ]);
    let t = to_display_tree(&v);
    match t {
        DisplayTree::Array(items) => assert_eq!(items.len(), 10),
        _ => panic!("expected an array"),
    }
}

#[test]
fn signed_keeps_magnitude() {
    match to_display_tree(&Value::Signed(-5)) {
        DisplayTree::Number(n) => assert_eq!(n, num(false, 5, 0)),
        _ => panic!("expected a number"),
    }
}

#[test]
fn unsigned_keeps_magnitude() {
    match to_display_tree(&Value::Unsigned(5)) {
        DisplayTree::Number(n) => assert_eq!(n, num(true, 5, 0)),
        _ => panic!("expected a number"),
    }
}

#[test]
fn float_keeps_magnitude() {
    let (p, m, e) = json::number::Number::from(5.0).as_parts();
    match to_display_tree(&Value::Float(num(p, m, e))) {
        DisplayTree::Number(n) => {
            assert_eq!(n, num(p, m, e));
            let back: f64 = json::number::Number::from_parts(n.positive, n.mantissa, n.exponent)
                .into();
            assert_eq!(back, 5.0);
        },
        _ => panic!("expected a number"),
    }
}

#[test]
fn signed_extreme_magnitude() {
    match to_display_tree(&Value::Signed(i64::MIN)) {
        DisplayTree::Number(n) => assert_eq!(n, num(false, 1u64 << 63, 0)),
        _ => panic!("expected a number"),
    }
}

#[test]
fn bytes_become_base64_text() {
    match to_display_tree(&Value::Bytes(vec![0x68, 0x69])) {
        DisplayTree::String(s) => assert_eq!(s, "aGk="),
        _ => panic!("expected a string"),
    }
}

#[test]
fn empty_bytes_become_empty_text() {
    match to_display_tree(&Value::Bytes(vec![])) {
        DisplayTree::String(s) => assert_eq!(s, ""),
        _ => panic!("expected a string"),
    }
}

#[test]
fn tag_is_transparent() {
    let tagged = Value::Tag(42, Box::new(Value::Unicode(String::from("x"))));
    let plain = Value::Unicode(String::from("x"));
    let a = json_string(&to_display_tree(&tagged));
    let b = json_string(&to_display_tree(&plain));
    assert_eq!(a, b);
    match to_display_tree(&tagged) {
        DisplayTree::String(s) => assert_eq!(s, "x"),
        _ => panic!("expected a string"),
    }
}

#[test]
fn undefined_collapses_to_null() {
    assert!(matches!(to_display_tree(&Value::Undefined), DisplayTree::Null));
    assert!(matches!(to_display_tree(&Value::Null), DisplayTree::Null));
}

#[test]
fn map_keys_are_stringified_in_order() {
    let v = Value::Mapping(vec![
        (Value::Unsigned(1), Value::Bool(true)),
        (Value::Unicode(String::from("a")), Value::Unsigned(2)),
    ]);
    match to_display_tree(&v) {
        DisplayTree::Object(entries) => {
            assert_eq!(entries.len(), 2);
            assert_eq!(entries[0].0, "1");
            assert!(matches!(entries[0].1, DisplayTree::Boolean(true)));
            assert_eq!(entries[1].0, "a");
            match &entries[1].1 {
                DisplayTree::Number(n) => assert_eq!(*n, num(true, 2, 0)),
                _ => panic!("expected a number"),
            }
        },
        _ => panic!("expected an object"),
    }
}

#[test]
fn colliding_keys_last_write_wins() {
    let v = Value::Mapping(vec![
        (Value::Unsigned(1), Value::Bool(true)),
        (Value::Unicode(String::from("1")), Value::Bool(false)),
        (Value::Unicode(String::from("b")), Value::Null),
    ]);
    match to_display_tree(&v) {
        DisplayTree::Object(entries) => {
            assert_eq!(entries.len(), 2);
            assert_eq!(entries[0].0, "1");
            assert!(matches!(entries[0].1, DisplayTree::Boolean(false)));
            assert_eq!(entries[1].0, "b");
        },
        _ => panic!("expected an object"),
    }
}

#[test]
fn conversion_is_repeatable() {
    let v = Value::Mapping(vec![
        (Value::Bool(true), Value::Array(vec![Value::Signed(-1), Value::Unsigned(2)])),
        (Value::Bytes(vec![104, 105]), Value::Tag(1, Box::new(Value::Unsigned(0)))),
    ]);
    let a = json_string(&to_display_tree(&v));
    let b = json_string(&to_display_tree(&v));
    assert_eq!(a, b);
}
