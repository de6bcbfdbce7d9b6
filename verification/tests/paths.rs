use protobufts::compiler::ts_path::{TsPath, TsPathComponent};
use protobufts::protopath::{PathComponent, ProtoPath};

#[test]
fn proto_path_text_leaves_out_its_last_step() {
    let mut p = ProtoPath::new();
    assert_eq!(p.to_text(), "");
    p.push(PathComponent::Package("shop".to_string()));
    p.push(PathComponent::File("a.proto".to_string()));
    p.push(PathComponent::Message("Item".to_string()));
    p.push(PathComponent::Enum("Kind".to_string()));
    assert_eq!(p.to_text(), "shop/a.proto::Item.");
}

#[test]
fn ts_path_text_ends_with_the_declaration() {
    let mut p = TsPath::new();
    assert_eq!(p.to_text(), "");
    p.push(TsPathComponent::Folder("shop".to_string()));
    p.push(TsPathComponent::File("types".to_string()));
    p.push(TsPathComponent::Interface("IItem".to_string()));
    assert_eq!(p.to_text(), "shop/types::IItem");
}
