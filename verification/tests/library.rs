use protobufts::compiler::ast::{
    BinaryExpression, BinaryOperator, Block, Expression, File, FolderEntry, ForStatement, Identifier, IfStatement,
    ImportDeclaration, ImportSpecifier, Statement, StringLiteral, Type, VariableDeclarationList,
};
use protobufts::compiler::constants::{has_property, message_name_to_encode_type_name};
use protobufts::compiler::folders::root_scope_to_folder;
use protobufts::compiler::imports::{ensure_import, get_relative_import, get_relative_import_string};
use protobufts::compiler::names::{is_reserved, is_safe_id, to_js_string};
use protobufts::compiler::render::{
    check_file, push_indented, render_expression, render_file, render_statement, render_type,
};
use protobufts::compiler::ts_path::{file_name_to_folder_name, TsPath, TsPathComponent};
use protobufts::error::ProtoError;
use protobufts::id_generator::IdGenerator;
use protobufts::package::{FieldDeclaration, FieldTypeReference, ProtoFile, Scope, Declaration};
use protobufts::proto_scope::ProtoScope;
use protobufts::protopath::{PathComponent, ProtoPath};
use protobufts::reader::{get_proto_folder_path, has_located_chars, read_proto_file, select_paths};
use protobufts::scope_builder::ScopeBuilder;

fn parse(path: &str, content: &str, name: &str, ids: &mut IdGenerator) -> ProtoFile {
    assert!(has_located_chars(content));
    read_proto_file(path, content, name.to_string(), ids).unwrap()
}

fn render_all(entries: &Vec<FolderEntry>, prefix: &str, out: &mut Vec<(String, String)>) {
    for entry in entries {
        match entry {
            FolderEntry::File(f) => {
                assert!(check_file(f));
                out.push((format!("{}/{}", prefix, f.name), render_file(f)));
            }
            FolderEntry::Folder(sub) => {
                render_all(&sub.entries, &format!("{}/{}", prefix, sub.name), out);
            }
        }
    }
}

fn compile(files: Vec<(&str, &str, &str)>) -> Vec<(String, String)> {
    let mut ids = IdGenerator::new();
    let mut builder = ScopeBuilder::new();
    for (path, content, name) in files {
        let file = parse(path, content, name, &mut ids);
        assert!(!builder.is_file_loaded(&file));
        builder.load(file).unwrap();
    }
    let root = builder.finish().unwrap();
    let folder = root_scope_to_folder(&root, "out".to_string()).unwrap();
    let mut out = Vec::new();
    render_all(&folder.entries, "out", &mut out);
    out
}

fn find<'a>(out: &'a Vec<(String, String)>, path: &str) -> &'a String {
    &out.iter().find(|(p, _)| p == path).unwrap_or_else(|| panic!("no module {}", path)).1
}

const SIMPLE: &str = "syntax = \"proto3\";\npackage shop;\n\nenum Kind {\n  A = 0;\n  B = 1;\n}\n\nmessage Item {\n  string name = 2;\n  int32 count = 1;\n  Kind kind = 3;\n  repeated int32 sizes = 4;\n}\n";

#[test]
fn parses_package_enum_and_message() {
    let mut ids = IdGenerator::new();
    let file = parse("./shop.proto", SIMPLE, "shop.proto", &mut ids);
    assert_eq!(file.path, vec!["shop".to_string()]);
    assert_eq!(file.name, "shop.proto");
    assert_eq!(file.declarations.len(), 2);
    match file.resolve("Item") {
        Some(Declaration::Message(m)) => assert_eq!(m.entries.len(), 4),
        _ => panic!("Item is not found"),
    }
    match file.resolve("Kind") {
        Some(Declaration::Enum(e)) => {
            assert_eq!(e.entries.len(), 2);
            assert_eq!(e.entries[1].value, 1);
        }
        _ => panic!("Kind is not found"),
    }
    assert!(file.resolve("Other").is_none());
    assert_eq!(file.full_path(), "shop/shop.proto");
}

#[test]
fn reports_unknown_character() {
    let mut ids = IdGenerator::new();
    let r = read_proto_file("./x.proto", "message M { # }", "x.proto".to_string(), &mut ids);
    match r {
        Err(ProtoError::UnknownCharacter { line, column, character, .. }) => {
            assert_eq!(line, 1);
            assert_eq!(column, 13);
            assert_eq!(character, '#');
        }
        other => panic!("unexpected {:?}", other),
    }
}

#[test]
fn empty_text_has_nothing_to_read() {
    assert!(!has_located_chars(""));
    assert!(!has_located_chars("\u{feff}"));
    assert!(has_located_chars(" "));
}

#[test]
fn loading_a_file_twice_is_refused() {
    let mut ids = IdGenerator::new();
    let mut builder = ScopeBuilder::new();
    let file = parse("./shop.proto", SIMPLE, "shop.proto", &mut ids);
    assert!(!builder.is_file_loaded(&file));
    builder.load(file).unwrap();
    let again = parse("./shop.proto", SIMPLE, "shop.proto", &mut ids);
    assert!(builder.is_file_loaded(&again));
}

#[test]
fn records_declaration_paths() {
    let mut ids = IdGenerator::new();
    let mut builder = ScopeBuilder::new();
    let file = parse("./shop.proto", SIMPLE, "shop.proto", &mut ids);
    builder.load(file).unwrap();
    let root = builder.finish().unwrap();
    assert_eq!(root.children().len(), 1);
    let (item_id, _) = root.types().iter().find(|(_, p)| p.last().unwrap() == "Item").unwrap();
    let path = root.get_declaration_path(*item_id).unwrap();
    assert_eq!(path.len(), 3);
    assert_eq!(path.get(0).as_str(), "shop");
    assert_eq!(path.get(1).as_str(), "shop.proto");
    assert_eq!(path.get(2).as_str(), "Item");
    assert_eq!(root.get_declaration_name(*item_id).unwrap(), "Item");
    assert!(root.get_declaration_path(1000).is_none());
}

#[test]
fn unresolvable_field_type_is_an_error() {
    let mut ids = IdGenerator::new();
    let mut builder = ScopeBuilder::new();
    let file = parse("./a.proto", "syntax = \"proto3\";\nmessage M {\n  Missing m = 1;\n}\n", "a.proto", &mut ids);
    builder.load(file).unwrap();
    match builder.finish() {
        Err(ProtoError::Other(m)) => assert_eq!(m, "Cannot resolve Missing\n  in M"),
        other => panic!("unexpected {:?}", other.map(|_| ())),
    }
}

#[test]
fn resolves_types_across_imports() {
    let common = "syntax = \"proto3\";\npackage common;\nmessage Money {\n  int64 cents = 1;\n}\n";
    let order = "syntax = \"proto3\";\npackage shop;\nimport \"common/money.proto\";\nmessage Order {\n  common.Money total = 1;\n}\n";
    let out = compile(vec![("./money.proto", common, "money.proto"), ("./order.proto", order, "order.proto")]);
    let types = find(&out, "out/shop/order/Order/types");
    assert!(types.contains("import { IMoney } from \"../../../common/money/Money/types\""), "{}", types);
    assert!(types.contains("export interface IOrder {\n  total?: IMoney | null\n}"), "{}", types);
    let encode = find(&out, "out/shop/order/Order/encode");
    assert!(encode.contains("import { encode as e"), "{}", encode);
}

#[test]
fn compiles_message_modules() {
    let out = compile(vec![("./shop.proto", SIMPLE, "shop.proto")]);
    let kind = find(&out, "out/shop/shop/Kind");
    assert_eq!(kind, "export enum Kind {\n  A = 0,\n  B = 1,\n}\n");
    let types = find(&out, "out/shop/shop/Item/types");
    assert_eq!(
        types,
        "import { Kind } from \"../Kind\"\n\nexport interface IItem {\n  name?: string | null\n  count?: number | null\n  kind?: Kind | null\n  sizes?: (number[]) | null\n}\n\nexport interface Item {\n  name?: string | null\n  count?: number | null\n  kind?: Kind | null\n  sizes?: (number[]) | null\n}\n"
    );
    let encode = find(&out, "out/shop/shop/Item/encode");
    assert!(encode.starts_with("import { Writer } from \"protobufjs/minimal\"\nimport { IItem } from \"./types\"\n\nexport function encode(message: IItem, writer?: Writer): Writer {\n  const w = writer || Writer.create()\n"), "{}", encode);
    let count_at = encode.find("w.uint32(8).int32(message.count)").unwrap();
    let name_at = encode.find("w.uint32(18).string(message.name)").unwrap();
    assert!(count_at < name_at, "fields are written by number");
    assert!(encode.contains("w.uint32(24).int32(message.kind)"), "{}", encode);
    assert!(encode.contains("w.uint32(34).fork()"), "{}", encode);
    assert!(encode.trim_end().ends_with("return w\n}"), "{}", encode);
    let decode = find(&out, "out/shop/shop/Item/decode");
    assert!(decode.contains("export function decode(reader: Reader | Uint8Array, length?: number): Item {"), "{}", decode);
    assert!(decode.contains("const message = { name: \"\", count: 0, kind: null, sizes: [] }"), "{}", decode);
    assert!(decode.contains("switch (tag >>> 3) {"), "{}", decode);
    assert!(decode.contains("case 2:\n"), "{}", decode);
    assert!(decode.contains("message.name = r.string()"), "{}", decode);
    assert!(decode.contains("message.kind = r.int32()"), "{}", decode);
    assert!(decode.contains("default:\n"), "{}", decode);
}

#[test]
fn decoding_module_reads_each_field_by_number() {
    let out = compile(vec![("./shop.proto", SIMPLE, "shop.proto")]);
    let decode = find(&out, "out/shop/shop/Item/decode");
    let expected = "import { Reader } from \"protobufjs/minimal\"\nimport { Item } from \"./types\"\n\nexport function decode(reader: Reader | Uint8Array, length?: number): Item {\n  const r = reader instanceof Reader ? reader : Reader.create(reader)\n  const end = length === undefined ? r.len : r.pos + length\n  const message = { name: \"\", count: 0, kind: null, sizes: [] }\n  while (r.pos < end) {\n    const tag = r.uint32()\n    switch (tag >>> 3) {\n      case 2:\n        message.name = r.string()\n        break\n      case 1:\n        message.count = r.int32()\n        break\n      case 3:\n        message.kind = r.int32()\n        break\n      case 4:\n        if (!(message.sizes && message.sizes.length)) message.sizes = []\n        if ((tag & 7) === 2) {\n          const arr_end = r.uint32() + r.pos\n          while (r.pos < arr_end) {\n            message.sizes.push(r.int32())\n          }\n        } else message.sizes.push(r.int32())\n        break\n      default:\n        r.skipType(tag & 7)\n        break\n    }\n  }\n  return message\n}\n";
    assert_eq!(decode, expected);
}

#[test]
fn decoding_module_imports_nested_decoders() {
    let common = "syntax = \"proto3\";\npackage common;\nmessage Money {\n  int64 cents = 1;\n}\n";
    let order = "syntax = \"proto3\";\npackage shop;\nimport \"common/money.proto\";\nmessage Order {\n  repeated common.Money parts = 1;\n  repeated string notes = 2;\n}\n";
    let out = compile(vec![("./money.proto", common, "money.proto"), ("./order.proto", order, "order.proto")]);
    let decode = find(&out, "out/shop/order/Order/decode");
    assert!(decode.contains("import { decode as d"), "{}", decode);
    assert!(decode.contains(" from \"../../../common/money/Money/decode\""), "{}", decode);
    assert!(decode.contains("message.parts.push(d"), "{}", decode);
    assert!(decode.contains("(r, r.uint32()))\n        break"), "{}", decode);
    assert!(decode.contains("message.notes.push(r.string())"), "{}", decode);
    assert!(decode.contains("const message = { parts: [], notes: [] }"), "{}", decode);
}

#[test]
fn second_reference_to_an_imported_decoder_is_not_implemented() {
    let common = "syntax = \"proto3\";\npackage common;\nmessage Money {\n  int64 cents = 1;\n}\n";
    let order = "syntax = \"proto3\";\npackage shop;\nimport \"common/money.proto\";\nmessage Order {\n  common.Money total = 1;\n  repeated common.Money parts = 2;\n}\n";
    let mut ids = IdGenerator::new();
    let mut builder = ScopeBuilder::new();
    builder.load(parse("./money.proto", common, "money.proto", &mut ids)).unwrap();
    builder.load(parse("./order.proto", order, "order.proto", &mut ids)).unwrap();
    let root = builder.finish().unwrap();
    assert!(matches!(root_scope_to_folder(&root, "out".to_string()), Err(ProtoError::NotImplemented(_))));
}

#[test]
fn each_message_gets_a_folder_with_its_modules() {
    let text = "syntax = \"proto3\";\npackage shop;\nmessage Outer {\n  message Inner {\n    int32 x = 1;\n  }\n  int32 y = 1;\n}\n";
    let out = compile(vec![("./shop.proto", text, "shop.proto")]);
    let paths: Vec<&str> = out.iter().map(|(p, _)| p.as_str()).collect();
    assert_eq!(
        paths,
        vec![
            "out/shop/shop/Outer/types",
            "out/shop/shop/Outer/encode",
            "out/shop/shop/Outer/decode",
            "out/shop/shop/Outer/Inner/types",
            "out/shop/shop/Outer/Inner/encode",
            "out/shop/shop/Outer/Inner/decode",
        ]
    );
}

#[test]
fn map_fields_are_rejected_by_the_lexer() {
    let content = "syntax = \"proto3\";\nmessage M {\n  map<string, int32> counts = 1;\n}\n";
    let mut ids = IdGenerator::new();
    assert!(has_located_chars(content));
    match read_proto_file("./m.proto", content, "m.proto".to_string(), &mut ids) {
        Err(ProtoError::UnknownCharacter { .. }) => {}
        other => panic!("unexpected {:?}", other.map(|_| ())),
    }
}

#[test]
fn relative_import_paths() {
    let from = vec![
        TsPathComponent::Folder("a".to_string()),
        TsPathComponent::Folder("M".to_string()),
        TsPathComponent::File("types".to_string()),
    ];
    let to = vec![
        TsPathComponent::Folder("a".to_string()),
        TsPathComponent::Folder("N".to_string()),
        TsPathComponent::File("types".to_string()),
        TsPathComponent::Interface("IN".to_string()),
    ];
    assert_eq!(get_relative_import_string(&from, &to), Some("../N/types".to_string()));
    let same_folder = vec![
        TsPathComponent::Folder("a".to_string()),
        TsPathComponent::Folder("M".to_string()),
        TsPathComponent::File("types".to_string()),
        TsPathComponent::Interface("IM".to_string()),
    ];
    assert_eq!(get_relative_import_string(&from, &same_folder), None);
    let sibling_file = vec![
        TsPathComponent::Folder("a".to_string()),
        TsPathComponent::Folder("M".to_string()),
        TsPathComponent::File("decode".to_string()),
        TsPathComponent::Function("decode".to_string()),
    ];
    assert_eq!(get_relative_import_string(&from, &sibling_file), Some("./decode".to_string()));
    let import = get_relative_import(&from, &to).unwrap();
    assert_eq!(import.string_literal.text, "../N/types");
}

#[test]
fn importing_twice_from_one_path_keeps_one_import() {
    let mut file = File::new("types".to_string());
    file.push_statement(Statement::Break);
    let make = |name: &str| {
        ImportDeclaration::import(
            vec![ImportSpecifier::new(Identifier::new(name))],
            StringLiteral::new("./x".to_string()),
        )
    };
    ensure_import(&mut file, make("A")).unwrap();
    ensure_import(&mut file, make("B")).unwrap();
    assert_eq!(file.statements.len(), 2);
    assert_eq!(render_statement(&file.statements[0]), "import { A } from \"./x\"");
    let renamed = ImportDeclaration::import(
        vec![ImportSpecifier::new_full(Identifier::new("d1"), Some(Identifier::new("decode")))],
        StringLiteral::new("./x".to_string()),
    );
    assert!(matches!(ensure_import(&mut file, renamed), Err(ProtoError::NotImplemented(_))));
}

#[test]
fn adding_the_same_import_again_changes_nothing() {
    let mut file = File::new("types".to_string());
    file.push_statement(Statement::Break);
    let make = || {
        ImportDeclaration::import(
            vec![ImportSpecifier::new(Identifier::new("A"))],
            StringLiteral::new("./x".to_string()),
        )
    };
    ensure_import(&mut file, make()).unwrap();
    let first: Vec<String> = file.statements.iter().map(render_statement).collect();
    ensure_import(&mut file, make()).unwrap();
    let second: Vec<String> = file.statements.iter().map(render_statement).collect();
    assert_eq!(first, second);
    assert_eq!(second.len(), 2);
    let bare = || ImportDeclaration::import(vec![], StringLiteral::new("./y".to_string()));
    ensure_import(&mut file, bare()).unwrap();
    let third: Vec<String> = file.statements.iter().map(render_statement).collect();
    ensure_import(&mut file, bare()).unwrap();
    let fourth: Vec<String> = file.statements.iter().map(render_statement).collect();
    assert_eq!(third, fourth);
    assert_eq!(fourth.len(), 3);
}

#[test]
fn binary_expressions_are_built_operand_by_operand() {
    let empty = BinaryExpression::new(BinaryOperator::LessThan);
    assert_eq!(render_expression(&Expression::BinaryExpression(empty)), "undefined < undefined");
    let mut b = BinaryExpression::new(BinaryOperator::Plus);
    b.left(Expression::id("a")).right(Expression::NumericLiteral(2));
    assert_eq!(render_expression(&Expression::BinaryExpression(b)), "a + 2");
}

#[test]
fn names_and_string_literals() {
    assert!(is_safe_id("$abc_09"));
    assert!(!is_safe_id("a-b"));
    assert!(is_reserved("default"));
    assert!(!is_reserved("value"));
    assert_eq!(to_js_string(&"a\"b\\\n".to_string()), "\"a\\\"b\\\\\\n\"");
    assert_eq!(file_name_to_folder_name(&"money.proto".to_string()), "money");
    assert_eq!(file_name_to_folder_name(&"money".to_string()), "money");
    assert_eq!(message_name_to_encode_type_name("Item"), "IItem");
}

#[test]
fn renders_expressions_and_statements() {
    let access = Expression::id("message").into_prop("default");
    assert_eq!(render_expression(&access), "message[\"default\"]");
    let sum = BinaryOperator::Plus.apply(Expression::id("a"), Expression::NumericLiteral(-3));
    assert_eq!(render_expression(&sum.into_prop("x")), "(a + -3).x");
    let call = has_property(Expression::id("m"), &Identifier::new("x"));
    assert_eq!(render_expression(&call), "Object.hasOwnProperty.call(m, \"x\")");
    let mut block = Block::new();
    block.push_statement(Statement::Expression(Expression::id("f").into_call(vec![])));
    let stmt = Statement::IfStatement(IfStatement {
        expression: Expression::id("c"),
        then_statement: Box::new(Statement::Block(block)),
        else_statement: Some(Box::new(Statement::Break)),
    });
    assert_eq!(render_statement(&stmt), "if (c) {\n  f()\n} else break");
    let for_stmt = ForStatement::for_each(Identifier::new("i"), Expression::id("xs"));
    assert_eq!(render_statement(&Statement::For(Box::new(for_stmt))), "for (let i = 0; i < xs.length; ++i);");
    let decl = VariableDeclarationList::declare_const(Identifier::new("x"), Expression::ArrayLiteralExpression(vec![Expression::True, Expression::Null]));
    assert_eq!(render_statement(&Statement::VariableStatement(decl)), "const x = [true, null]");
}

#[test]
fn indents_each_line() {
    let mut s = String::new();
    push_indented(&mut s, &"a\nb\r\n\nc".to_string());
    assert_eq!(s, "  a\n  b\n  \n  c\n");
    let mut one = String::new();
    push_indented(&mut one, &"line".to_string());
    assert_eq!(one, "  line\n");
}

#[test]
fn joins_types() {
    assert_eq!(render_type(&Type::Boolean.or(&Type::Boolean)), "boolean");
    assert_eq!(render_type(&Type::Number.or(&Type::Null)), "number | null");
    let nested = Type::Number.or(&Type::Null).or(&Type::Number);
    assert_eq!(render_type(&nested), "number | null");
    assert_eq!(render_type(&Type::Never.or(&Type::String)), "string");
    assert_eq!(render_type(&Type::array(Type::Number.or(&Type::Null))), "Array<number | null>");
    assert_eq!(render_type(&Type::Record(Box::new(Type::String), Box::new(Type::from_id("X")))), "Record<string, X>");
}

#[test]
fn json_name_prefers_the_attribute() {
    let plain = FieldDeclaration {
        name: "my_field".to_string(),
        field_type_ref: FieldTypeReference::Int32,
        tag: 1,
        attributes: vec![],
    };
    assert_eq!(plain.json_name(), "my_field");
    let named = FieldDeclaration {
        name: "my_field".to_string(),
        field_type_ref: FieldTypeReference::Int32,
        tag: 1,
        attributes: vec![("deprecated".to_string(), "true".to_string()), ("json_name".to_string(), "myField".to_string())],
    };
    assert_eq!(named.json_name(), "myField");
}

#[test]
fn paths_grow_by_push() {
    let mut p = ProtoPath::new();
    assert!(p.is_empty());
    p.push(PathComponent::Package("a".to_string()));
    p.push(PathComponent::File("b.proto".to_string()));
    p.push(PathComponent::Enum("E".to_string()));
    assert_eq!(p.len(), 3);
    let ts = TsPath::from_proto_path(&p);
    let names: Vec<String> = ts.components().iter().map(|c| c.name()).collect();
    assert_eq!(names, vec!["a", "b", "E"]);
    assert!(ts.components()[0].is_folder());
    assert!(ts.components()[2].is_file());
    assert!(!ts.components()[2].is_declaration());
    assert!(TsPathComponent::Interface("I".to_string()).is_declaration());
}

#[test]
fn command_line_paths() {
    let args = vec!["prog".to_string(), "./proto".to_string(), "--out".to_string(), "./dist/../out".to_string()];
    let (proto, out) = select_paths(&args);
    assert_eq!(proto, Some("./proto".to_string()));
    assert_eq!(out, Some("./dist/../out".to_string()));
    let cli = get_proto_folder_path(&args, "/w");
    assert_eq!(cli.proto_folder_path, "/w/proto");
    assert_eq!(cli.out_folder_path, "out");
    let absolute = vec!["prog".to_string(), "/data/../schemas".to_string()];
    assert_eq!(get_proto_folder_path(&absolute, "/w").proto_folder_path, "/schemas");
    let none: Vec<String> = vec![];
    let cli = get_proto_folder_path(&none, "/w");
    assert_eq!(cli.proto_folder_path, "/w");
    assert_eq!(cli.out_folder_path, "./out");
}

#[test]
fn not_implemented_error_message() {
    let e = ProtoError::NotImplemented("decoding of map fields".to_string());
    assert_eq!(e.message(), "not yet implemented: decoding of map fields");
}

#[test]
fn scope_kind_queries() {
    let mut ids = IdGenerator::new();
    let mut builder = ScopeBuilder::new();
    builder.load(parse("./shop.proto", SIMPLE, "shop.proto", &mut ids)).unwrap();
    let root = builder.finish().unwrap();
    let package = &root.children()[0];
    assert!(package.is_package());
    assert_eq!(package.id(), None);
    let file = &package.children()[0];
    assert!(file.is_file());
    let kind = &file.children()[0];
    assert!(kind.is_enum());
    assert!(kind.is_declaration());
    assert!(kind.is_message());
    let item = &file.children()[1];
    assert!(item.get_message_declaration().is_some());
    assert!(!item.is_message());
    assert_eq!(item.name(), "Item");
    assert!(matches!(item, ProtoScope::Message(_)));
}
