use protobufts::compiler::ast::{
    EnumDeclaration, EnumMember, EnumValue, Identifier, ImportClause, ImportDeclaration,
    ImportSpecifier, InterfaceDeclaration, InterfaceMember, Modifier, NumericLiteral,
    PropertySignature, StringLiteral, Type, UnionType,
};
use protobufts::compiler::render::{render_enum, render_import, render_interface, render_type};

#[test]
fn render_file_renders_import_with_renamed_binding() {
    let decl = ImportDeclaration {
        import_clause: ImportClause {
            name: Some(Identifier::new("google")),
            named_bindings: Some(vec![ImportSpecifier::new_full(
                Identifier::new("wrong"),
                Some(Identifier::new("right")),
            )]),
        },
        string_literal: StringLiteral::new("google/proto".to_string()),
    };
    let rendered: String = render_import(&decl);
    assert_eq!(
        rendered,
        "import google, { right as wrong } from \"google/proto\"".to_string()
    );
}

#[test]
fn render_file_it_works_enum() {
    let decl = EnumDeclaration {
        modifiers: vec![Modifier::Export],
        name: Identifier::new("MyEnum"),
        members: vec![
            EnumMember {
                name: Identifier::new("A"),
                value: Some(EnumValue::String(StringLiteral::new("A".to_string()))),
            },
            EnumMember {
                name: Identifier::new("B"),
                value: None,
            },
            EnumMember {
                name: Identifier::new("C"),
                value: Some(EnumValue::Number(NumericLiteral::from_int(1))),
            },
        ],
    };
    let rendered: String = render_enum(&decl);
    assert_eq!(
        rendered,
        "export enum MyEnum {\n  A = \"A\",\n  B,\n  C = 1,\n}".to_string()
    );
}

#[test]
fn it_renders_union() {
    let type_ = Type::UnionType(UnionType {
        types: vec![
            Type::Boolean,
            Type::Number,
            Type::String,
            Type::Null,
            Type::Undefined,
        ],
    });
    let rendered: String = render_type(&type_);
    assert_eq!(rendered, "boolean | number | string | null | undefined");
}

#[test]
fn it_renders_array_with_nested_type() {
    let type_ = Type::array(Type::from_union(UnionType {
        types: vec![
            Type::Boolean,
            Type::Number,
            Type::String,
            Type::Null,
            Type::Undefined,
        ],
    }));
    let rendered: String = render_type(&type_);
    assert_eq!(
        rendered,
        "Array<boolean | number | string | null | undefined>"
    );
}

#[test]
fn it_renders_bool_array() {
    let type_ = Type::array(Type::Boolean);
    let rendered: String = render_type(&type_);
    assert_eq!(rendered, "boolean[]");
}

#[test]
fn render_file_it_works() {
    let decl = InterfaceDeclaration {
        modifiers: vec![Modifier::Export],
        name: Identifier::new("MyInterface"),
        members: vec![
            InterfaceMember::PropertySignature(PropertySignature::new("A", Type::Boolean)),
            InterfaceMember::PropertySignature(PropertySignature::new_optional("B", Type::Number)),
            InterfaceMember::PropertySignature(PropertySignature::new("C", Type::String)),
        ],
    };
    let rendered: String = render_interface(&decl);
    assert_eq!(
        rendered,
        "export interface MyInterface {\n  A: boolean\n  B?: number\n  C: string\n}".to_string()
    );
}
