use lupinas_lullaby::repr::JavaScriptType;
use lupinas_lullaby::repr::JavaScriptValue;
use lupinas_lullaby::repr::ObjectEntry;
use lupinas_lullaby::repr::ObjectRow;

#[test]
fn literal_null_renders_as_null() {
    assert_eq!(JavaScriptValue::Null.to_text(), "null");
}

#[test]
fn literal_string_stays_single_quoted() {
    let v = JavaScriptValue::Str("hello".to_string());
    assert_eq!(v.to_text(), "'hello'");
}

#[test]
fn literal_booleans_stay_booleans() {
    assert_eq!(JavaScriptValue::Bool(true).to_text(), "true");
    assert_eq!(JavaScriptValue::Bool(false).to_text(), "false");
}

#[test]
fn literal_number_stays_numeric() {
    assert_eq!(JavaScriptValue::Num("1.5".to_string()).to_text(), "1.5");
    assert_eq!(JavaScriptValue::Num("42".to_string()).to_text(), "42");
}

#[test]
fn literal_array_renders_bracketed() {
    let v = JavaScriptValue::List(vec![
        JavaScriptValue::Num("1".to_string()),
        JavaScriptValue::Str("x".to_string()),
        JavaScriptValue::Null,
    ]);
    assert_eq!(v.to_text(), "[1,'x',null]");
}

#[test]
fn literal_object_renders_braced() {
    let v = JavaScriptValue::Obj(vec![
        ObjectEntry { key: "k".to_string(), val: JavaScriptValue::Num("2".to_string()) },
        ObjectEntry { key: "s".to_string(), val: JavaScriptValue::Str("v".to_string()) },
    ]);
    assert_eq!(v.to_text(), "{\"k\":2,\"s\":'v'}");
}

#[test]
fn type_array_renders_with_suffix() {
    let t = JavaScriptType::Array(Box::new(JavaScriptType::typename("number")));
    assert_eq!(t.to_text(), "number[]");
}

#[test]
fn type_product_joins_with_ampersand() {
    let t = JavaScriptType::Product(vec![
        JavaScriptType::typename("A"),
        JavaScriptType::typename("B"),
    ]);
    assert_eq!(t.to_text(), "A&B");
}

#[test]
fn type_sum_joins_with_pipe() {
    let t = JavaScriptType::Sum(vec![
        JavaScriptType::typename("A"),
        JavaScriptType::typename("B"),
        JavaScriptType::typename("C"),
    ]);
    assert_eq!(t.to_text(), "A|B|C");
}

#[test]
fn type_empty_product_renders_empty() {
    let t = JavaScriptType::Product(vec![]);
    assert_eq!(t.to_text(), "");
}

#[test]
fn type_record_marks_optional_fields() {
    let t = JavaScriptType::AnonymousObject(vec![
        (
            "name".to_string(),
            ObjectRow::from_data(true, JavaScriptType::typename("string")),
        ),
        (
            "age".to_string(),
            ObjectRow::from_data(false, JavaScriptType::typename("number")),
        ),
    ]);
    assert_eq!(t.to_text(), "{\"name\" : string;\"age\" ? : number;}");
}

#[test]
fn type_empty_record_renders_as_braces() {
    let t = JavaScriptType::AnonymousObject(vec![]);
    assert_eq!(t.to_text(), "{}");
}

#[test]
fn type_literal_renders_its_value() {
    let t = JavaScriptType::Value(Box::new(JavaScriptValue::Str("on".to_string())));
    assert_eq!(t.to_text(), "'on'");
}

#[test]
fn value_equality_is_structural() {
    let a = JavaScriptValue::List(vec![
        JavaScriptValue::Num("1".to_string()),
        JavaScriptValue::Str("x".to_string()),
    ]);
    let b = JavaScriptValue::List(vec![
        JavaScriptValue::Num("1".to_string()),
        JavaScriptValue::Str("x".to_string()),
    ]);
    assert_eq!(a, b);
    let c = JavaScriptValue::List(vec![
        JavaScriptValue::Num("1".to_string()),
        JavaScriptValue::Str("y".to_string()),
    ]);
    assert_ne!(a, c);
    assert_ne!(JavaScriptValue::Null, JavaScriptValue::Bool(false));
    assert_eq!(
        JavaScriptValue::Obj(vec![ObjectEntry {
            key: "k".to_string(),
            val: JavaScriptValue::Null,
        }]),
        JavaScriptValue::Obj(vec![ObjectEntry {
            key: "k".to_string(),
            val: JavaScriptValue::Null,
        }])
    );
}
