use cold_tools::json::{JsonNumber, JsonValue};
use cold_tools::schema::{json_str, Schema, SchemaValue};

fn at<'a>(v: &'a JsonValue, key: &str) -> &'a JsonValue {
    v.get(key).expect("member present")
}

fn keys(v: &JsonValue) -> Vec<String> {
    match v {
        JsonValue::Object(m) => m.iter().map(|(k, _)| k.clone()).collect(),
        _ => panic!("expected an object"),
    }
}

#[test]
fn string_schema_members() {
    let s = Schema::string().description("d").default("x").enum_values(&["a", "b"]).into_json();
    assert_eq!(at(&s, "type").as_str(), Some("string"));
    assert_eq!(at(&s, "description").as_str(), Some("d"));
    assert_eq!(at(&s, "default").as_str(), Some("x"));
    let e: Vec<&str> = at(&s, "enum").as_array().unwrap().iter().map(|v| v.as_str().unwrap()).collect();
    assert_eq!(e, vec!["a", "b"]);
    let bare = Schema::string().into_json();
    assert_eq!(keys(&bare), vec!["type"]);
}

#[test]
fn integer_and_boolean_schema_members() {
    let i = Schema::integer().default(100).minimum(-1).maximum(7).description("n").into_json();
    assert_eq!(at(&i, "type").as_str(), Some("integer"));
    assert_eq!(at(&i, "default").as_u64(), Some(100));
    assert!(matches!(at(&i, "minimum"), JsonValue::Number(JsonNumber::NegInt(-1))));
    assert_eq!(at(&i, "maximum").as_u64(), Some(7));
    let b = Schema::boolean().default(true).description("flag").into_json();
    assert_eq!(at(&b, "type").as_str(), Some("boolean"));
    assert_eq!(at(&b, "default").as_bool(), Some(true));
    assert_eq!(at(&b, "description").as_str(), Some("flag"));
}

#[test]
fn array_schema_members() {
    let a = Schema::array(Schema::string().into_json()).description("list").into_json();
    assert_eq!(at(&a, "type").as_str(), Some("array"));
    assert_eq!(at(at(&a, "items"), "type").as_str(), Some("string"));
    assert_eq!(at(&a, "description").as_str(), Some("list"));
}

#[test]
fn object_schema_without_properties_or_required() {
    let o = Schema::object().build();
    assert_eq!(keys(&o), vec!["type"]);
    let o = Schema::object()
        .property("a", Schema::boolean())
        .property("a", Schema::integer())
        .required_property("b", json_str("raw"))
        .build();
    assert_eq!(at(at(at(&o, "properties"), "a"), "type").as_str(), Some("integer"));
    assert_eq!(at(at(&o, "properties"), "b").as_str(), Some("raw"));
    let req: Vec<&str> = at(&o, "required").as_array().unwrap().iter().map(|v| v.as_str().unwrap()).collect();
    assert_eq!(req, vec!["b"]);
    assert!(o.get("description").is_none());
}

#[test]
fn enum_schema_is_a_string_schema() {
    let e = Schema::enum_values(&[]);
    assert_eq!(at(&e, "type").as_str(), Some("string"));
    assert!(at(&e, "enum").as_array().unwrap().is_empty());
}
