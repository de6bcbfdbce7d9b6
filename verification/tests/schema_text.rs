use protobufts::id_generator::IdGenerator;
use protobufts::package::{FieldDeclaration, FieldTypeReference, OneOfDeclaration};
use protobufts::reader::{has_located_chars, read_proto_file};
use protobufts::schema_text::{proto_file_to_text, push_field, push_oneof, push_type_ref};

const SCHEMA: &str = "syntax = \"proto3\";\npackage shop;\nimport \"google/x.proto\";\n\nenum Kind {\n  A = 0;\n  B = -1;\n}\n\nmessage Item {\n  string name = 2 [json_name = \"n\"];\n  message Inner {\n    int32 a = 1;\n  }\n}\n";

#[test]
fn parsed_file_is_written_back() {
    let mut ids = IdGenerator::new();
    assert!(has_located_chars(SCHEMA));
    let file = read_proto_file("./shop.proto", SCHEMA, "shop.proto".to_string(), &mut ids).unwrap();
    assert_eq!(
        proto_file_to_text(&file),
        "syntax = \"proto3\";\n\nimport \"google/x.proto\";\n\npackage shop;\n\nenum Kind {\n  A = 0;\n  B = -1;\n}\n\n\nmessage Item {\n  string name = 2 [json_name = \"n\"];\n  \n  message Inner {\n    int32 a = 1;\n  }\n}\n\n"
    );
}

#[test]
fn type_references_are_spelled_as_in_schemas() {
    let t = FieldTypeReference::MapOf(
        Box::new(FieldTypeReference::String),
        Box::new(FieldTypeReference::Repeated(Box::new(FieldTypeReference::IdPath(vec![
            "a".to_string(),
            "B".to_string(),
        ])))),
    );
    let mut out = String::new();
    push_type_ref(&mut out, &t);
    assert_eq!(out, "map<string, repeated a.B>");
}

#[test]
fn field_with_two_attributes() {
    let f = FieldDeclaration {
        name: "id".to_string(),
        field_type_ref: FieldTypeReference::Uint64,
        tag: 7,
        attributes: vec![
            ("json_name".to_string(), "ID".to_string()),
            ("deprecated".to_string(), "true".to_string()),
        ],
    };
    let mut out = String::new();
    push_field(&mut out, &f);
    assert_eq!(out, "uint64 id = 7 [json_name = \"ID\", deprecated = \"true\"]");
}

#[test]
fn oneof_lists_its_options() {
    let field = |name: &str, t: FieldTypeReference, tag: i64| FieldDeclaration {
        name: name.to_string(),
        field_type_ref: t,
        tag,
        attributes: vec![],
    };
    let o = OneOfDeclaration {
        name: "choice".to_string(),
        options: vec![field("x", FieldTypeReference::Int32, 3), field("y", FieldTypeReference::String, 4)],
    };
    let mut out = String::new();
    push_oneof(&mut out, &o);
    assert_eq!(out, "oneof choice {\n  int32 x = 3;\n  string y = 4;\n}\n");
}
