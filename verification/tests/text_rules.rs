use cbor_tool::convert::to_display_tree;
use cbor_tool::input::Input;
use cbor_tool::text::json_string;
use cbor_tool::text::key_string;
use cbor_tool::text::number_string;
use cbor_tool::tree::DisplayTree;
use cbor_tool::value::Number;
use cbor_tool::value::Value;

fn num(positive: bool, mantissa: u64, exponent: i16) -> Number {
    Number { positive, mantissa, exponent }
}

#[test]
fn integer_number_text_is_decimal() {
    assert_eq!(number_string(&num(true, 0, 0)), "0");
    assert_eq!(number_string(&num(true, 1048576, 0)), "1048576");
    assert_eq!(number_string(&num(false, 5, 0)), "-5");
    assert_eq!(number_string(&num(false, 0, 0)), "0");
}

#[test]
fn fractional_number_text_comes_from_the_formatter() {
    assert_eq!(number_string(&num(true, 15, -1)), "1.5");
    assert_eq!(number_string(&num(false, 25, -1)), "-2.5");
}

#[test]
fn string_keys_stand_verbatim() {
    let t = to_display_tree(&Value::Unicode(String::from("a\"b")));
    assert_eq!(key_string(&t), "a\"b");
}

#[test]
fn non_string_keys_use_json_text() {
    assert_eq!(key_string(&to_display_tree(&Value::Bool(true))), "true");
    assert_eq!(key_string(&to_display_tree(&Value::Null)), "null");
    assert_eq!(key_string(&to_display_tree(&Value::Undefined)), "null");
    assert_eq!(key_string(&to_display_tree(&Value::Unsigned(1))), "1");
    let arr = Value::Array(vec![Value::Unsigned(1), Value::Unicode(String::from("x"))]);
    assert_eq!(key_string(&to_display_tree(&arr)), "[1,\"x\"]");
}

#[test]
fn json_text_escapes_strings() {
    let t = to_display_tree(&Value::Unicode(String::from("a\"b\\c\nd\u{1}")));
    assert_eq!(json_string(&t), "\"a\\\"b\\\\c\\nd\\u0001\"");
}

#[test]
fn json_text_of_containers() {
    let v = Value::Mapping(vec![
        (Value::Unicode(String::from("k")), Value::Array(vec![Value::Null, Value::Bool(false)])),
    ]);
    assert_eq!(json_string(&to_display_tree(&v)), "{\"k\":[null,false]}");
    let empty_map = Value::Mapping(vec![]);
    assert_eq!(json_string(&to_display_tree(&empty_map)), "{}");
    let empty_arr = Value::Array(vec![]);
    assert_eq!(json_string(&to_display_tree(&empty_arr)), "[]");
}

#[test]
fn console_source_constructs_without_reading() {
    let _input = Input::stdin();
}
