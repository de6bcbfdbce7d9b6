use protobufts::block_scope::{BlockScope, IdType};
use protobufts::error::ProtoError;
use protobufts::id_generator::IdGenerator;
use protobufts::package::{Declaration, ProtoFile, ProtoVersion};
use protobufts::protopath::PathComponent;
use protobufts::reader::{has_located_chars, read_proto_file};
use protobufts::package_tree::PackageTree;

fn empty_file(path: &[&str], name: &str) -> ProtoFile {
    ProtoFile {
        version: ProtoVersion::Proto3,
        declarations: vec![],
        imports: vec![],
        path: path.iter().map(|p| p.to_string()).collect(),
        name: name.to_string(),
    }
}

fn parse(path: &str, content: &str, name: &str, ids: &mut IdGenerator) -> ProtoFile {
    assert!(has_located_chars(content));
    read_proto_file(path, content, name.to_string(), ids).unwrap()
}

#[test]
fn file_without_package_sits_in_an_unnamed_node() {
    let t = PackageTree::from_file(empty_file(&[], "a.proto"));
    assert_eq!(t.name, "");
    assert!(t.children.is_empty());
    assert_eq!(t.files.len(), 1);
}

#[test]
fn file_with_one_package_names_the_node() {
    let t = PackageTree::from_file(empty_file(&["GDX"], "a.proto"));
    assert_eq!(t.name, "GDX");
    assert!(t.children.is_empty());
    assert_eq!(t.files[0].name, "a.proto");
}

#[test]
fn file_with_two_packages_is_a_line_of_packages() {
    let f = empty_file(&["GDX", "Roles"], "nullableTypes.proto");
    let t = PackageTree::from_file(f);
    assert_eq!(t.name, "GDX");
    assert!(t.files.is_empty());
    assert_eq!(t.children.len(), 1);
    assert_eq!(t.children[0].name, "Roles");
    assert!(t.children[0].children.is_empty());
    assert_eq!(t.children[0].files.len(), 1);
    assert_eq!(t.children[0].files[0].name, "nullableTypes.proto");
}

#[test]
fn files_are_gathered_by_package() {
    let files = vec![
        empty_file(&["GDX", "Roles"], "nullableTypes.proto"),
        empty_file(&["GDX", "Roles"], "other.proto"),
        empty_file(&["GDX", "Users"], "user.proto"),
        empty_file(&["solo"], "solo.proto"),
    ];
    let tree = PackageTree::try_from_files(files).unwrap();
    assert_eq!(
        tree.to_text(),
        "\n  GDX\n    Roles\n      nullableTypes.proto\n      other.proto\n    Users\n      user.proto\n  solo\n    solo.proto\n"
    );
    let path = vec!["GDX".to_string(), "Roles".to_string()];
    let roles = tree.resolve_subtree(&path).unwrap();
    assert_eq!(roles.files.len(), 2);
    assert_eq!(tree.resolve_subtree(&vec!["GDX".to_string()]).unwrap().children.len(), 2);
    assert!(tree.resolve_subtree(&vec!["Roles".to_string()]).is_none());
    assert_eq!(tree.resolve_subtree(&vec!["solo".to_string()]).unwrap().files[0].name, "solo.proto");
}

#[test]
fn two_files_at_one_place_conflict() {
    let files = vec![
        empty_file(&["a", "b"], "x.proto"),
        empty_file(&["a", "c"], "x.proto"),
        empty_file(&["a", "b"], "x.proto"),
    ];
    match PackageTree::try_from_files(files) {
        Err(ProtoError::ConflictingFiles { first_path, second_path }) => {
            assert_eq!(first_path, "a/b/x.proto");
            assert_eq!(second_path, "a/b/x.proto");
        }
        other => panic!("unexpected {:?}", other.map(|_| ())),
    }
}

#[test]
fn create_child_reuses_a_child_of_that_name() {
    let mut t = PackageTree::new();
    assert_eq!(t.create_child("a"), 0);
    assert_eq!(t.create_child("b"), 1);
    assert_eq!(t.create_child("a"), 0);
    assert_eq!(t.children.len(), 2);
    assert_eq!(t.find_child("b"), Some(1));
    assert_eq!(t.find_child("c"), None);
}

const SHOP: &str = "syntax = \"proto3\";\npackage shop;\n\nmessage Item {\n  message Kind {\n    int32 a = 1;\n  }\n  Kind kind = 1;\n}\n";
const ORDERS: &str = "syntax = \"proto3\";\npackage shop;\nimport \"shop/a.proto\";\n\nmessage Order {\n  int32 id = 1;\n}\n";

fn shop_tree() -> PackageTree {
    let mut ids = IdGenerator::new();
    let a = parse("./a.proto", SHOP, "a.proto", &mut ids);
    let b = parse("./b.proto", ORDERS, "b.proto", &mut ids);
    PackageTree::try_from_files(vec![a, b]).unwrap()
}

#[test]
fn names_resolve_through_enclosing_messages_files_and_imports() {
    let tree = shop_tree();
    let shop = tree.resolve_subtree(&vec!["shop".to_string()]).unwrap();
    let b = &shop.files[1];
    assert_eq!(b.name, "b.proto");
    let scope = BlockScope::new(&tree, b);
    let order = scope.resolve("Order").unwrap();
    assert!(matches!(order.declaration, IdType::DataType(Declaration::Message(m)) if m.name == "Order"));
    let imported = scope.resolve("shop").unwrap();
    assert!(matches!(imported.declaration, IdType::Package(f) if f.name == "a.proto"));
    let kind = scope
        .resolve_path(&vec!["shop".to_string(), "Item".to_string(), "Kind".to_string()])
        .unwrap();
    assert!(matches!(kind.declaration, IdType::DataType(Declaration::Message(m)) if m.name == "Kind"));
    let path = kind.path();
    assert_eq!(path.len(), 4);
    assert!(matches!(path.get(0), PathComponent::Package(p) if p == "shop"));
    assert!(matches!(path.get(1), PathComponent::File(f) if f == "a.proto"));
    assert!(matches!(path.get(2), PathComponent::Message(m) if m == "Item"));
    assert!(matches!(path.get(3), PathComponent::Message(m) if m == "Kind"));
}

#[test]
fn unresolved_names_report_where_they_were_looked_for() {
    let tree = shop_tree();
    let shop = tree.resolve_subtree(&vec!["shop".to_string()]).unwrap();
    let a = &shop.files[0];
    let scope = BlockScope::new(&tree, a);
    let item = match &a.declarations[0] {
        Declaration::Message(m) => m,
        _ => panic!("expected a message"),
    };
    let inner = scope.push(item);
    assert_eq!(inner.stack_trace(), vec!["Item".to_string(), "shop/a.proto".to_string()]);
    let kind = inner.resolve("Kind").unwrap();
    assert_eq!(kind.scope.parent_messages.len(), 1);
    match inner.resolve("Missing") {
        Err(ProtoError::Other(m)) => {
            assert_eq!(m, "Could not resolve name Missing\n  in Item\n  in shop/a.proto")
        }
        other => panic!("unexpected {:?}", other.map(|_| ())),
    }
    match kind.resolve("A") {
        Err(ProtoError::Other(m)) => {
            assert_eq!(m, "Cannot resolve A\n  in Kind\n  in Item\n  in shop/a.proto")
        }
        other => panic!("unexpected {:?}", other.map(|_| ())),
    }
    let p = inner.path();
    assert_eq!(p.len(), 3);
}

#[test]
fn a_dotted_path_resolves_step_by_step() {
    let tree = shop_tree();
    let shop = tree.resolve_subtree(&vec!["shop".to_string()]).unwrap();
    let scope = BlockScope::new(&tree, &shop.files[1]);
    let whole = scope
        .resolve_path(&vec!["shop".to_string(), "Item".to_string(), "Kind".to_string()])
        .unwrap();
    let stepwise = scope.resolve("shop").unwrap().resolve("Item").unwrap().resolve("Kind").unwrap();
    assert_eq!(whole.path().to_text(), stepwise.path().to_text());
    let failed = scope.resolve_path(&vec!["shop".to_string(), "Missing".to_string(), "Kind".to_string()]);
    let first_failure = scope.resolve("shop").unwrap().resolve("Missing");
    match (failed, first_failure) {
        (Err(ProtoError::Other(m1)), Err(ProtoError::Other(m2))) => {
            assert_eq!(m1, m2);
            assert_eq!(m1, "Could not resolve name Missing\n  in shop/a.proto");
        }
        _ => panic!("expected both to fail"),
    }
    let single = scope.resolve_path(&vec!["Order".to_string()]).unwrap();
    assert_eq!(single.path().to_text(), scope.resolve("Order").unwrap().path().to_text());
}
