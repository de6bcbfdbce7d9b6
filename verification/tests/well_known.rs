use protobufts::compiler::folders::root_scope_to_folder;
use protobufts::compiler::render::{check_file, render_file};
use protobufts::compiler::ast::FolderEntry;
use protobufts::id_generator::IdGenerator;
use protobufts::package::{Declaration, FieldTypeReference, ImportPath, MessageDeclarationEntry};
use protobufts::reader::{has_located_chars, read_proto_file, relative_file_path};
use protobufts::scope_builder::ScopeBuilder;
use protobufts::well_known::{
    create_time_type, create_well_known_file, is_valid_well_known_import_file_name,
    is_well_known_import,
};

fn import(packages: &[&str], file: &str) -> ImportPath {
    ImportPath {
        file_name: file.to_string(),
        packages: packages.iter().map(|p| p.to_string()).collect(),
    }
}

#[test]
fn well_known_imports_are_recognised() {
    assert!(is_well_known_import(&import(&["google", "protobuf"], "timestamp.proto")));
    assert!(is_well_known_import(&import(&["google", "protobuf"], "wrappers.proto")));
    assert!(!is_well_known_import(&import(&["google", "protobuf"], "other.proto")));
    assert!(!is_well_known_import(&import(&["google"], "timestamp.proto")));
    assert!(!is_well_known_import(&import(&["google", "api"], "timestamp.proto")));
    assert!(!is_well_known_import(&import(&["google", "protobuf", "x"], "any.proto")));
    assert!(is_valid_well_known_import_file_name("field_mask.proto"));
    assert!(!is_valid_well_known_import_file_name("mask.proto"));
}

#[test]
fn time_type_has_seconds_and_nanos() {
    let mut ids = IdGenerator::new();
    ids.next_id();
    let m = create_time_type(&mut ids, "Duration");
    assert_eq!(m.id, 2);
    assert_eq!(ids.last_id(), 2);
    assert_eq!(m.name, "Duration");
    assert_eq!(m.entries.len(), 2);
    match &m.entries[0] {
        MessageDeclarationEntry::Field(f) => {
            assert_eq!(f.name, "seconds");
            assert_eq!(f.tag, 1);
            assert!(matches!(f.field_type_ref, FieldTypeReference::Int64));
        }
        _ => panic!("expected a field"),
    }
    match &m.entries[1] {
        MessageDeclarationEntry::Field(f) => {
            assert_eq!(f.name, "nanos");
            assert_eq!(f.tag, 2);
            assert!(matches!(f.field_type_ref, FieldTypeReference::Int32));
        }
        _ => panic!("expected a field"),
    }
}

#[test]
fn struct_file_declares_null_value_then_three_messages() {
    let mut ids = IdGenerator::new();
    let file = create_well_known_file(&mut ids, "struct.proto");
    assert_eq!(file.name, "struct.proto");
    assert_eq!(file.path, vec!["google".to_string(), "protobuf".to_string()]);
    assert_eq!(ids.last_id(), 4);
    let names: Vec<(usize, String)> = file
        .declarations
        .iter()
        .map(|d| match d {
            Declaration::Enum(e) => (e.id, e.name.clone()),
            Declaration::Message(m) => (m.id, m.name.clone()),
        })
        .collect();
    assert_eq!(
        names,
        vec![
            (1, "NullValue".to_string()),
            (2, "Struct".to_string()),
            (3, "Value".to_string()),
            (4, "ListValue".to_string()),
        ]
    );
    match &file.declarations[2] {
        Declaration::Message(m) => match &m.entries[0] {
            MessageDeclarationEntry::OneOf(o) => {
                assert_eq!(o.name, "kind");
                let tags: Vec<i64> = o.options.iter().map(|f| f.tag).collect();
                assert_eq!(tags, vec![1, 2, 3, 4, 5, 6]);
                assert_eq!(o.options[5].name, "list_value");
            }
            _ => panic!("expected a oneof"),
        },
        _ => panic!("expected a message"),
    }
}

#[test]
fn wrappers_file_has_nine_messages() {
    let mut ids = IdGenerator::new();
    let file = create_well_known_file(&mut ids, "wrappers.proto");
    assert_eq!(file.declarations.len(), 9);
    assert_eq!(ids.last_id(), 9);
    match &file.declarations[2] {
        Declaration::Message(m) => {
            assert_eq!(m.name, "Int64");
            assert_eq!(m.id, 3);
        }
        _ => panic!("expected a message"),
    }
}

#[test]
fn empty_and_field_mask_files() {
    let mut ids = IdGenerator::new();
    let empty = create_well_known_file(&mut ids, "empty.proto");
    match &empty.declarations[0] {
        Declaration::Message(m) => {
            assert_eq!(m.name, "Empty");
            assert!(m.entries.is_empty());
        }
        _ => panic!("expected a message"),
    }
    let mask = create_well_known_file(&mut ids, "field_mask.proto");
    assert_eq!(ids.last_id(), 2);
    match &mask.declarations[0] {
        Declaration::Message(m) => match &m.entries[0] {
            MessageDeclarationEntry::Field(f) => {
                assert_eq!(f.name, "paths");
                assert!(matches!(&f.field_type_ref, FieldTypeReference::Repeated(t) if matches!(**t, FieldTypeReference::String)));
            }
            _ => panic!("expected a field"),
        },
        _ => panic!("expected a message"),
    }
}

#[test]
fn loading_a_well_known_file_twice_changes_nothing() {
    let mut ids = IdGenerator::new();
    let mut builder = ScopeBuilder::new();
    builder.load_well_known(&mut ids, "duration.proto");
    assert_eq!(ids.last_id(), 1);
    builder.load_well_known(&mut ids, "duration.proto");
    assert_eq!(ids.last_id(), 1);
    let probe = create_well_known_file(&mut IdGenerator::new(), "duration.proto");
    assert!(builder.is_file_loaded(&probe));
    builder.load_well_known(&mut ids, "timestamp.proto");
    assert_eq!(ids.last_id(), 2);
    let root = builder.finish().unwrap();
    assert_eq!(root.children().len(), 1);
    assert_eq!(root.children()[0].name(), "google");
}

#[test]
fn well_known_messages_compile_to_modules() {
    let mut ids = IdGenerator::new();
    let mut builder = ScopeBuilder::new();
    builder.load_well_known(&mut ids, "timestamp.proto");
    let root = builder.finish().unwrap();
    let folder = root_scope_to_folder(&root, "out".to_string()).unwrap();
    let mut rendered = Vec::new();
    let mut stack: Vec<(&Vec<FolderEntry>, String)> = vec![(&folder.entries, "out".to_string())];
    while let Some((entries, prefix)) = stack.pop() {
        for entry in entries {
            match entry {
                FolderEntry::File(f) => {
                    assert!(check_file(f));
                    rendered.push((format!("{}/{}", prefix, f.name), render_file(f)));
                }
                FolderEntry::Folder(sub) => stack.push((&sub.entries, format!("{}/{}", prefix, sub.name))),
            }
        }
    }
    let types = rendered
        .iter()
        .find(|(p, _)| p.ends_with("Timestamp/types"))
        .map(|(_, t)| t.clone())
        .unwrap_or_else(|| panic!("{:?}", rendered.iter().map(|(p, _)| p).collect::<Vec<_>>()));
    assert!(types.contains("seconds?: util.Long | number | null"), "{}", types);
    assert!(types.contains("nanos?: number | null"), "{}", types);
}

#[test]
fn user_file_parses_alongside_well_known() {
    let content = "syntax = \"proto3\";\nmessage M {\n  int32 a = 1;\n}\n";
    let mut ids = IdGenerator::new();
    let mut builder = ScopeBuilder::new();
    builder.load_well_known(&mut ids, "empty.proto");
    assert!(has_located_chars(content));
    let file = read_proto_file("./m.proto", content, "m.proto".to_string(), &mut ids).unwrap();
    builder.load(file).unwrap();
    let root = builder.finish().unwrap();
    assert_eq!(root.children().len(), 2);
}

#[test]
fn relative_path_of_a_file_in_the_working_folder() {
    let s = |v: &[&str]| v.iter().map(|x| x.to_string()).collect::<Vec<String>>();
    assert_eq!(relative_file_path(&s(&["/", "home", "me"]), &s(&["/", "home", "me", "a.proto"])), "./a.proto");
    assert_eq!(relative_file_path(&s(&["/", "home"]), &s(&["/", "home", "me", "a.proto"])), "./me");
    assert_eq!(relative_file_path(&s(&["/", "home", "me"]), &s(&["/", "home"])), ".");
    assert_eq!(relative_file_path(&s(&["/", "home"]), &s(&["/", "home"])), ".");
}
