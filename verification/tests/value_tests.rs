use ngl::builtins::{call_native, len_native, render, type_native, NativeOf, PieceOf};
use ngl::error::ErrorOf;
use ngl::text::{parse_int, trim_text};
use ngl::value::{values_equal, Native, Value};

fn s(t: &str) -> String {
    t.to_string()
}

fn text_of(v: &Value) -> String {
    let mut out = String::new();
    for p in render(v) {
        match p {
            PieceOf::Text(t) => out.push_str(&t),
            PieceOf::Float(b) => out.push_str(&f64::from_bits(b).to_string()),
        }
    }
    out
}

#[test]
fn truthiness_of_values() {
    assert!(!Value::Int(0).is_truthy());
    assert!(Value::Int(-3).is_truthy());
    assert!(!Value::Float(0.0f64.to_bits()).is_truthy());
    assert!(!Value::Float((-0.0f64).to_bits()).is_truthy());
    assert!(Value::Float(f64::NAN.to_bits()).is_truthy());
    assert!(!Value::String(String::new()).is_truthy());
    assert!(Value::String(s("a")).is_truthy());
    assert!(!Value::Array(vec![]).is_truthy());
    assert!(Value::Array(vec![Value::Null]).is_truthy());
    assert!(!Value::Null.is_truthy());
    assert!(Value::Bool(true).is_truthy());
    assert!(Value::Function(0).is_truthy());
}

#[test]
fn type_names() {
    assert_eq!(Value::Int(1).value_type_name(), "int");
    assert_eq!(Value::Float(0).value_type_name(), "float");
    assert_eq!(Value::String(s("")).value_type_name(), "string");
    assert_eq!(Value::Null.value_type_name(), "null");
    assert_eq!(Value::Object(vec![]).value_type_name(), "object");
    assert_eq!(Value::NativeFunction(Native::Len).value_type_name(), "native");
    assert_eq!(Value::Instance(0, vec![]).value_type_name(), "instance");
}

#[test]
fn equality_of_values() {
    assert!(values_equal(&Value::Int(2), &Value::Int(2)));
    assert!(!values_equal(&Value::Int(2), &Value::Float(2.0f64.to_bits())));
    assert!(values_equal(&Value::Float(0.0f64.to_bits()), &Value::Float((-0.0f64).to_bits())));
    assert!(!values_equal(&Value::Float(f64::NAN.to_bits()), &Value::Float(f64::NAN.to_bits())));
    assert!(values_equal(
        &Value::Array(vec![Value::Int(1), Value::String(s("a"))]),
        &Value::Array(vec![Value::Int(1), Value::String(s("a"))])
    ));
    assert!(!values_equal(&Value::Array(vec![Value::Int(1)]), &Value::Array(vec![])));
    assert!(values_equal(
        &Value::Object(vec![(s("a"), Value::Int(1)), (s("b"), Value::Int(2))]),
        &Value::Object(vec![(s("b"), Value::Int(2)), (s("a"), Value::Int(1))])
    ));
    assert!(values_equal(&Value::Null, &Value::Null));
    assert!(!values_equal(&Value::Null, &Value::Bool(false)));
}

#[test]
fn text_of_values() {
    assert_eq!(text_of(&Value::Int(-42)), "-42");
    assert_eq!(text_of(&Value::Bool(false)), "false");
    assert_eq!(text_of(&Value::Null), "null");
    assert_eq!(text_of(&Value::Array(vec![Value::Int(1), Value::String(s("x"))])), "[1, x]");
    assert_eq!(text_of(&Value::Object(vec![(s("k"), Value::Int(1))])), "{k: 1}");
    assert_eq!(text_of(&Value::Function(3)), "<函数>");
    assert_eq!(text_of(&Value::NativeFunction(Native::Print)), "<内置函数 print>");
    assert_eq!(text_of(&Value::Instance(0, vec![])), "<实例 {}>");
}

#[test]
fn float_text_is_left_to_the_host() {
    let pieces = render(&Value::Float(1.5f64.to_bits()));
    assert_eq!(pieces, vec![PieceOf::Float(1.5f64.to_bits())]);
}

#[test]
fn len_counts_bytes_elements_and_fields() {
    assert!(matches!(len_native(&vec![Value::String(s("héllo"))]), Value::Int(6)));
    assert!(matches!(len_native(&vec![Value::Array(vec![Value::Null, Value::Null])]), Value::Int(2)));
    assert!(matches!(len_native(&vec![Value::Object(vec![(s("a"), Value::Null)])]), Value::Int(1)));
    assert!(matches!(len_native(&vec![Value::Int(5)]), Value::Int(0)));
    assert!(matches!(len_native(&vec![]), Value::Int(0)));
}

#[test]
fn type_builtin_names_the_type() {
    assert!(matches!(type_native(&vec![Value::Bool(true)]), Value::String(t) if t == "bool"));
    assert!(matches!(type_native(&vec![]), Value::String(t) if t == "null"));
}

#[test]
fn int_builtin_converts() {
    assert!(matches!(call_native(Native::Int, vec![Value::String(s("-12"))]), NativeOf::Value(Value::Int(-12))));
    assert!(matches!(call_native(Native::Int, vec![Value::String(s("x"))]), NativeOf::Value(Value::Int(0))));
    assert!(matches!(call_native(Native::Int, vec![Value::Bool(true)]), NativeOf::Value(Value::Int(1))));
    assert!(matches!(call_native(Native::Int, vec![]), NativeOf::Value(Value::Int(0))));
    assert!(matches!(call_native(Native::Int, vec![Value::Float(7)]), NativeOf::FloatToInt(7)));
}

#[test]
fn int_reads_back_what_str_writes() {
    for n in [0i64, 5, -5, 1234567, i64::MIN, i64::MAX] {
        let r = call_native(Native::Str, vec![Value::Int(n)]);
        let text = match r {
            NativeOf::Render(v) => text_of(&v),
            _ => panic!("str renders"),
        };
        assert_eq!(text, n.to_string());
        assert!(matches!(call_native(Native::Int, vec![Value::String(text)]), NativeOf::Value(Value::Int(m)) if m == n));
    }
}

#[test]
fn float_builtin_converts() {
    assert!(matches!(call_native(Native::Float, vec![Value::Int(3)]), NativeOf::IntToFloat(3)));
    assert!(matches!(call_native(Native::Float, vec![Value::String(s("2.5"))]), NativeOf::ParseFloat(t) if t == "2.5"));
    assert!(matches!(call_native(Native::Float, vec![Value::Bool(true)]), NativeOf::Value(Value::Float(b)) if b == 1.0f64.to_bits()));
    assert!(matches!(call_native(Native::Float, vec![]), NativeOf::Value(Value::Float(0))));
}

#[test]
fn printing_builtins_are_host_work() {
    assert!(matches!(call_native(Native::PrintLn, vec![Value::Int(1)]), NativeOf::Print(a, true) if a.len() == 1));
    assert!(matches!(call_native(Native::Print, vec![]), NativeOf::Print(a, false) if a.is_empty()));
    assert!(matches!(call_native(Native::Input, vec![]), NativeOf::ReadLine));
}

#[test]
fn error_messages() {
    assert_eq!(ErrorOf::Syntax(s("x")).message(), "语法错误: x");
    assert_eq!(ErrorOf::Runtime(s("y")).message(), "运行时错误: y");
    assert_eq!(ErrorOf::<String>::DivisionByZero.message(), "除以零");
    assert_eq!(ErrorOf::FileNotFound(s("a.ngl")).message(), "文件未找到: a.ngl");
    assert_eq!(ErrorOf::<String>::ArityError.message(), "参数数量错误");
}

#[test]
fn parse_int_follows_i64_from_str() {
    assert_eq!(parse_int("42"), Some(42));
    assert_eq!(parse_int("+7"), Some(7));
    assert_eq!(parse_int("-9223372036854775808"), Some(i64::MIN));
    assert_eq!(parse_int("9223372036854775807"), Some(i64::MAX));
    assert_eq!(parse_int("9223372036854775808"), None);
    assert_eq!(parse_int(""), None);
    assert_eq!(parse_int("-"), None);
    assert_eq!(parse_int("1a"), None);
    assert_eq!(parse_int(" 1"), None);
}

#[test]
fn trim_removes_white_space_at_both_ends() {
    assert_eq!(trim_text("  hi there \t\n"), "hi there");
    assert_eq!(trim_text("\u{3000}x\u{3000}"), "x");
    assert_eq!(trim_text("   "), "");
    let once = trim_text(" a ");
    assert_eq!(trim_text(&once), once);
}

#[test]
fn equality_is_reflexive_and_symmetric_on_plain_values() {
    let a = Value::Object(vec![
        (s("x"), Value::Array(vec![Value::Int(1), Value::Float(0.5f64.to_bits())])),
        (s("y"), Value::Instance(2, vec![(s("z"), Value::Null)])),
    ]);
    let b = Value::Object(vec![
        (s("y"), Value::Instance(2, vec![(s("z"), Value::Null)])),
        (s("x"), Value::Array(vec![Value::Int(1), Value::Float(0.5f64.to_bits())])),
    ]);
    assert!(values_equal(&a, &a));
    assert!(values_equal(&a, &b));
    assert!(values_equal(&b, &a));
    let c = Value::Object(vec![(s("x"), Value::Int(1))]);
    assert_eq!(values_equal(&a, &c), values_equal(&c, &a));
    let nan = Value::Array(vec![Value::Float(f64::NAN.to_bits())]);
    assert!(!values_equal(&nan, &nan));
}

#[test]
fn white_space_matches_std_on_every_character() {
    for c in (0u32..=0x10FFFF).filter_map(char::from_u32) {
        assert_eq!(ngl::text::char_is_whitespace(c), c.is_whitespace(), "{:?}", c);
    }
}
