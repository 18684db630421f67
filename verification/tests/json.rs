use lib::json::Json;

#[test]
fn writes_nested_values() {
    let mut json = Json::new();
    let seconds: f32 = 12.34;
    json.begin_object()
        .field_str("name", "a \"b\"\n")
        .field_bool("ok", true)
        .array_field("list")
        .string("x")
        .number(2)
        .begin_object()
        .field_num("n", 3)
        .end_object()
        .end_array()
        .object_field("empty")
        .end_object()
        .field_tenths("seconds", (seconds * 10.0) as i64)
        .end_object();
    assert_eq!(
        json.finish(),
        r#"{"name":"a \"b\"\n","ok":true,"list":["x",2,{"n":3}],"empty":{},"seconds":12.3}"#
    );
}

#[test]
fn nulls_controls_and_negative_tenths() {
    let mut json = Json::new();
    json.begin_object()
        .field_opt_str("a", None)
        .field_opt_str("b", Some("\u{1}\t\\"))
        .field_bool("c", false)
        .field_tenths("d", -12)
        .field_num("e", i64::MIN)
        .end_object();
    assert_eq!(
        json.finish(),
        "{\"a\":null,\"b\":\"\\u0001\\t\\\\\",\"c\":false,\"d\":-1.-2,\"e\":-9223372036854775808}"
    );
}

#[test]
fn top_level_values_take_no_comma() {
    let mut json = Json::new();
    json.begin_object().end_object();
    assert_eq!(json.finish(), "{}");
    let mut list = Json::new();
    list.string("x");
    assert_eq!(list.finish(), "\"x\"");
}
