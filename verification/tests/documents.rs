use dumb_json_parser::{parse, Array, Object, Property, Root, Value};

fn num(text: &str) -> Value {
    Value::Num(text.to_string())
}

fn text(s: &str) -> Value {
    Value::Str(s.to_string())
}

fn prop(key: &str, value: Value) -> Property {
    Property { lhs: key.to_string(), rhs: value }
}

fn obj(children: Vec<Property>) -> Value {
    Value::Obj(Object { children })
}

fn arr(children: Vec<Value>) -> Value {
    Value::Arr(Array { children })
}

fn child(doc: &str) -> Option<Value> {
    parse(doc.to_string()).child
}

fn as_float(v: &Value) -> f64 {
    match v {
        Value::Num(lexeme) => lexeme.parse::<f64>().unwrap(),
        other => panic!("not a number: {:?}", other),
    }
}

#[test]
fn top_level_number() {
    let root = parse("42".to_string());
    assert_eq!(root, Root { child: Some(num("42")) });
    assert_eq!(as_float(&root.child.unwrap()), 42.0);
}

#[test]
fn top_level_negative_fraction_with_exponent() {
    let v = child("-12.5e2").unwrap();
    assert_eq!(v, num("-12.5e2"));
    assert_eq!(as_float(&v), -1250.0);
}

#[test]
fn top_level_string() {
    assert_eq!(child("\"hello\""), Some(text("hello")));
}

#[test]
fn top_level_true() {
    assert_eq!(child("true"), Some(Value::Bool(true)));
}

#[test]
fn top_level_false() {
    assert_eq!(child("false"), Some(Value::Bool(false)));
}

#[test]
fn top_level_null() {
    assert_eq!(child("null"), Some(Value::Null));
}

#[test]
fn object_with_two_properties_in_order() {
    assert_eq!(
        child("{\"a\":1,\"b\":2}"),
        Some(obj(vec![prop("a", num("1")), prop("b", num("2"))]))
    );
}

#[test]
fn array_of_three_numbers_in_order() {
    let v = child("[1,2,3]").unwrap();
    assert_eq!(v, arr(vec![num("1"), num("2"), num("3")]));
    match v {
        Value::Arr(a) => {
            let floats: Vec<f64> = a.children.iter().map(as_float).collect();
            assert_eq!(floats, vec![1.0, 2.0, 3.0]);
        }
        _ => unreachable!(),
    }
}

#[test]
fn nested_object_and_array() {
    assert_eq!(
        child("{\"x\":[1,{\"y\":true}]}"),
        Some(obj(vec![prop(
            "x",
            arr(vec![num("1"), obj(vec![prop("y", Value::Bool(true))])])
        )]))
    );
}

#[test]
fn array_inside_array() {
    assert_eq!(
        child("[[1],[],[2,[3]]]"),
        Some(arr(vec![
            arr(vec![num("1")]),
            arr(vec![]),
            arr(vec![num("2"), arr(vec![num("3")])]),
        ]))
    );
}

#[test]
fn escaped_newline_becomes_line_feed() {
    assert_eq!(child("\"a\\nb\""), Some(text("a\nb")));
}

#[test]
fn every_known_escape_is_resolved() {
    assert_eq!(
        child("\"q\\\"b\\\\s\\/b\\bf\\fn\\nr\\rt\\t.\""),
        Some(text("q\"b\\s/b\u{0008}f\u{000c}n\u{000a}r\u{000d}t\u{0009}."))
    );
}

#[test]
fn unknown_escape_is_dropped() {
    assert_eq!(child("\"a\\qb\""), Some(text("ab")));
}

#[test]
fn escape_at_the_start_of_a_string_is_resolved() {
    assert_eq!(child("\"\\nb\""), Some(text("\nb")));
    assert_eq!(child("\"\\\"\""), Some(text("\"")));
}

#[test]
fn structural_characters_inside_a_string_stay_text() {
    assert_eq!(child("\"{a,[b]:c}\""), Some(text("{a,[b]:c}")));
    assert_eq!(
        child("{\"k\":\"x,y}\"}"),
        Some(obj(vec![prop("k", text("x,y}"))]))
    );
}

#[test]
fn lone_open_brace_gives_empty_object() {
    assert_eq!(child("{"), Some(obj(vec![])));
}

#[test]
fn unclosed_array_keeps_what_was_read() {
    assert_eq!(child("[1,2"), Some(arr(vec![num("1"), num("2")])));
}

#[test]
fn empty_document_has_no_child() {
    assert_eq!(parse(String::new()), Root { child: None });
}

#[test]
fn words_that_are_no_keyword_give_no_child() {
    assert_eq!(child("not json"), None);
}

#[test]
fn whitespace_between_tokens_has_no_effect() {
    let spaced = child("{ \"a\" : 1 }");
    assert_eq!(spaced, child("{\"a\":1}"));
    assert_eq!(spaced, Some(obj(vec![prop("a", num("1"))])));
    assert_eq!(
        child(" \t\r\n[ 1 ,\n 2 ]\n"),
        Some(arr(vec![num("1"), num("2")]))
    );
}

#[test]
fn duplicate_keys_are_kept_apart() {
    assert_eq!(
        child("{\"a\":1,\"a\":2}"),
        Some(obj(vec![prop("a", num("1")), prop("a", num("2"))]))
    );
}

#[test]
fn tokens_after_the_first_value_are_ignored() {
    assert_eq!(child("1 2"), Some(num("1")));
    assert_eq!(child("[1] {\"a\":2}"), Some(arr(vec![num("1")])));
    assert_eq!(child(", : ] true false"), Some(Value::Bool(true)));
}

#[test]
fn last_value_of_a_property_is_kept() {
    assert_eq!(
        child("{\"a\":1 2 \"z\"}"),
        Some(obj(vec![prop("a", text("z"))]))
    );
    assert_eq!(
        child("{\"a\":[1] null}"),
        Some(obj(vec![prop("a", Value::Null)]))
    );
}

#[test]
fn property_without_value_is_null() {
    assert_eq!(
        child("{\"a\":,\"b\":true}"),
        Some(obj(vec![prop("a", Value::Null), prop("b", Value::Bool(true))]))
    );
}

#[test]
fn stray_and_trailing_commas_in_an_array_are_accepted() {
    assert_eq!(
        child("[,1,,2,]"),
        Some(arr(vec![num("1"), num("2")]))
    );
}

#[test]
fn colons_are_never_checked() {
    assert_eq!(
        child("{\"a\" 1, \"b\"::2}"),
        Some(obj(vec![prop("a", num("1")), prop("b", num("2"))]))
    );
}

#[test]
fn stray_tokens_in_an_object_body_are_skipped() {
    assert_eq!(
        child("{1 true [ \"a\":3}"),
        Some(obj(vec![prop("a", num("3"))]))
    );
}

#[test]
fn empty_key_gives_no_property() {
    assert_eq!(child("{\"\":1}"), Some(obj(vec![])));
}

#[test]
fn unparsable_number_is_lost() {
    assert_eq!(child("[1-2, 3]"), Some(arr(vec![num("3")])));
    assert_eq!(child("-"), None);
    assert_eq!(child("[1e, .5, 2.]"), Some(arr(vec![num("5"), num("2.")])));
}

#[test]
fn keyword_must_match_the_whole_word() {
    assert_eq!(child("[truex, nulls, falsey, true]"), Some(arr(vec![Value::Bool(true)])));
    assert_eq!(child("[true1]"), Some(arr(vec![Value::Bool(true), num("1")])));
}

#[test]
fn object_in_array_in_object() {
    assert_eq!(
        child("{\"a\":{\"b\":[{\"c\":null}]},\"d\":\"e\"}"),
        Some(obj(vec![
            prop(
                "a",
                obj(vec![prop("b", arr(vec![obj(vec![prop("c", Value::Null)])]))])
            ),
            prop("d", text("e")),
        ]))
    );
}

#[test]
fn leading_whitespace_has_no_effect() {
    for doc in ["{\"a\":[1,true]}", "\"text", "12", "nul"] {
        let padded = format!(" \t\r\n{}", doc);
        assert_eq!(parse(padded), parse(doc.to_string()));
    }
}

#[test]
fn clone_gives_an_equal_tree() {
    let root = parse("{\"a\":[1,{\"b\":null}],\"c\":\"d\"}".to_string());
    let copy = root.clone();
    assert_eq!(copy, root);
    match (&root.child, &copy.child) {
        (Some(v), Some(w)) => assert_eq!(v.duplicate(), w.clone()),
        _ => unreachable!(),
    }
}

#[test]
fn every_number_in_a_tree_is_a_float_literal() {
    let v = child("[0, -0.5, 1e3, 2E-2, 7., .25, 1-1, -, 1e]").unwrap();
    match v {
        Value::Arr(a) => {
            let floats: Vec<f64> = a.children.iter().map(as_float).collect();
            assert_eq!(floats, vec![0.0, -0.5, 1000.0, 0.02, 7.0, 25.0]);
        }
        _ => unreachable!(),
    }
}
