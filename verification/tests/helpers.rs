use protobufts::compiler::ast::{Expression, File, Identifier, NewExpression, Statement};
use protobufts::compiler::constants::get_default_value;
use protobufts::compiler::render::{render_expression, render_statement, render_type};
use protobufts::compiler::types_compiler::{import_decode_result_type, import_encoding_input_type};
use protobufts::error::ProtoError;
use protobufts::id_generator::IdGenerator;
use protobufts::lexems::read_lexems;
use protobufts::package::{FieldTypeReference, Type};
use protobufts::reader::read_proto_file;
use protobufts::scope_builder::ScopeBuilder;
use protobufts::syntax::assert_enough_length;
use protobufts::protopath::PathComponent;

#[test]
fn enough_lexems_remain() {
    let lexems = read_lexems("a.proto", "message A {}").unwrap();
    assert_eq!(lexems.len(), 5);
    assert!(assert_enough_length("a.proto", &lexems, 0, 5, "too short").is_ok());
    match assert_enough_length("a.proto", &lexems, 1, 5, "too short") {
        Err(ProtoError::SyntaxError { file_path, line, column, message }) => {
            assert_eq!(file_path, "a.proto");
            assert_eq!((line, column), (1, 9));
            assert_eq!(message, "too short, but A occurred");
        }
        other => panic!("{:?}", other),
    }
}

#[test]
fn scalar_type_references_are_basic() {
    assert!(FieldTypeReference::Int32.is_basic());
    assert!(FieldTypeReference::String.is_basic());
    assert!(!FieldTypeReference::IdPath(vec!["Money".to_string()]).is_basic());
}

#[test]
fn new_expression_takes_arguments() {
    let mut n = NewExpression::new(Expression::Identifier(Identifier::new("Uint8Array")));
    n.add_argument(Expression::NumericLiteral(3));
    assert_eq!(render_expression(&Expression::NewExpression(n)), "new Uint8Array(3)");
}

#[test]
fn initial_values_of_schema_types() {
    assert_eq!(render_expression(&get_default_value(&FieldTypeReference::String)), "\"\"");
    assert_eq!(render_expression(&get_default_value(&FieldTypeReference::Bool)), "false");
    assert_eq!(render_expression(&get_default_value(&FieldTypeReference::Bytes)), "new Uint8Array()");
    assert_eq!(render_expression(&get_default_value(&FieldTypeReference::Uint64)), "0");
    assert_eq!(
        render_expression(&get_default_value(&FieldTypeReference::IdPath(vec!["Money".to_string()]))),
        "null"
    );
}

#[test]
fn long_fields_take_util_long() {
    let text = "syntax = \"proto3\";\npackage shop;\nmessage Item {\n  int64 n = 1;\n}\n";
    let mut ids = IdGenerator::new();
    let file = read_proto_file("./shop.proto", text, "shop.proto".to_string(), &mut ids).unwrap();
    let mut builder = ScopeBuilder::new();
    builder.load(file).unwrap();
    let root = builder.finish().unwrap();
    let mut types = File::new("types".to_string());
    let input = import_encoding_input_type(&mut types, &root, 0, &Type::Int64).unwrap();
    assert_eq!(render_type(&input), "util.Long | number");
    let result = import_decode_result_type(&mut types, &root, 0, &Type::Int64).unwrap();
    assert_eq!(render_type(&result), "util.Long");
    assert_eq!(types.statements.len(), 1);
    assert_eq!(render_statement(&types.statements[0]), "import { util } from \"protobufjs/minimal\"");
    let number = import_encoding_input_type(&mut types, &root, 0, &Type::Uint32).unwrap();
    assert_eq!(render_type(&number), "number");
    let flag = import_decode_result_type(&mut types, &root, 0, &Type::Bool).unwrap();
    assert_eq!(render_type(&flag), "boolean");
    assert_eq!(types.statements.len(), 1);
    assert!(matches!(types.statements[0], Statement::ImportDeclaration(_)));
}

#[test]
fn path_component_text_is_its_name() {
    let c = PathComponent::Message("Item".to_string());
    assert_eq!(c.to_text(), c.as_str());
    assert_eq!(c.to_text(), "Item");
    assert_eq!(PathComponent::Package("shop".to_string()).to_text(), "shop");
}

#[test]
fn scalar_names_map_back() {
    assert!(matches!(FieldTypeReference::from_id_path(vec!["uint64".to_string()]), FieldTypeReference::Uint64));
    assert!(matches!(FieldTypeReference::from_id_path(vec!["fixed64".to_string()]), FieldTypeReference::Fixed64));
    assert!(matches!(FieldTypeReference::from_id_path(vec!["float".to_string()]), FieldTypeReference::Float));
    assert!(matches!(
        FieldTypeReference::from_id_path(vec!["common".to_string(), "int64".to_string()]),
        FieldTypeReference::IdPath(_)
    ));
}
