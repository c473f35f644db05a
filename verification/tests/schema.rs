use cold_tools::json::JsonValue;
use cold_tools::schema::Schema;

fn at<'a>(v: &'a JsonValue, key: &str) -> &'a JsonValue {
    v.get(key).expect("member present")
}

#[test]
fn test_object_schema() {
    let schema = Schema::object()
        .required_property("path", Schema::string().description("file path"))
        .property("limit", Schema::integer().default(100).minimum(1))
        .description("Read a file")
        .build();

    assert_eq!(at(&schema, "type").as_str(), Some("object"));
    assert_eq!(at(at(at(&schema, "properties"), "path"), "type").as_str(), Some("string"));
    assert_eq!(at(&schema, "required").as_array().unwrap()[0].as_str(), Some("path"));
}

#[test]
fn test_enum_values() {
    let schema = Schema::enum_values(&["start", "stop", "list"]);
    assert_eq!(at(&schema, "enum").as_array().unwrap()[0].as_str(), Some("start"));
}
