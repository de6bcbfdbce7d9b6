//! The interfaces of a message: what its encoding function takes and what its
//! decoding function gives back.
use vstd::prelude::*;
use crate::compiler::ast::{
    File, Folder, FolderEntry, Identifier, ImportDeclaration, ImportSpecifier, InterfaceDeclaration,
    InterfaceMember, Modifier, PropertySignature, Statement, StringLiteral, TsTypeV, Type, identifier_texts,
    type_of_union, union_push,
};
use crate::compiler::constants::{PROTOBUF_MODULE, encode_type_name_of, message_name_to_encode_type_name};
use crate::compiler::imports::{all_imports, leading_imports, lemma_leading_imports, lemma_push_after_imports, after_imports, lemma_plain_import_keeps_rest, plain_import_effect, check_import_path, ensure_import, get_relative_import, has_renamed_binding, import_path_ok, import_slot, imports_from, is_plain_import, lemma_import_slot, relative_import_text};
use crate::compiler::ts_path::{TsPath, TsPathComponent, TsPathComponentV, ts_component_of, ts_component_name};
use crate::error::ProtoError;
use crate::package::{Field, MessageEntry, TypeV, Type as FieldType, attributes_view, json_name_of};
use crate::proto_scope::{MessageScope, RootScope, resolve_names, type_names};
use crate::protopath::PathComponentV;

verus! {

/// The scope path of the declaration `id`, found by its recorded names.
pub open spec fn declaration_path(root: RootScope, id: usize) -> Option<Seq<PathComponentV>> {
    match type_names(root.type_paths(), id) {
        Some(ns) => resolve_names(root.scopes(), ns),
        None => None,
    }
}

/// The name of the declaration `id`.
pub open spec fn declared_name(root: RootScope, id: usize) -> Option<Seq<char>> {
    match type_names(root.type_paths(), id) {
        Some(ns) => Some(ns.last()),
        None => None,
    }
}

/// The TypeScript path of the declaration `id`.
pub fn declaration_ts_path(root: &RootScope, id: usize) -> (r: Result<TsPath, ProtoError>)
    ensures
        match declaration_path(*root, id) {
            Some(p) => r matches Ok(t) && t@ == p.map_values(|c: PathComponentV| ts_component_of(c)),
            None => r is Err,
        },
{
    proof {
        use_type_invariant(root);
        root.lemma_wf_paths_nonempty(id);
    }
    match root.get_declaration_path(id) {
        Some(p) => Ok(TsPath::from_proto_path(&p)),
        None => Err(ProtoError::new("Cannot find the path of a declaration")),
    }
}

/// Imports into `file`, the module at `from`, the declaration at `to`.
pub fn import_into(file: &mut File, from: &TsPath, to: &TsPath) -> (r: Result<(), ProtoError>)
    ensures
        final(file).name == old(file).name,
        !import_path_ok(from@, to@) ==> r is Err && final(file).statements@ == old(file).statements@,
        import_path_ok(from@, to@) ==> r is Ok && match relative_import_text(from@, to@) {
            None => final(file).statements@ == old(file).statements@,
            Some(path) => plain_import_effect(old(file).statements@, final(file).statements@, ts_component_name(to@.last()), path),
        },
{
    let from_components = from.components();
    let to_components = to.components();
    if !check_import_path(from_components.as_slice(), to_components.as_slice()) {
        return Err(ProtoError::new("Cannot import a declaration from its own path"));
    }
    match get_relative_import(from_components.as_slice(), to_components.as_slice()) {
        Some(import_declaration) => {
            let ghost d = import_declaration;
            proof {
                lemma_import_slot(file.statements@, d.string_literal.text@);
                let b = d.import_clause.named_bindings->Some_0;
                assert(!has_renamed_binding(d.import_clause.named_bindings));
                assert(is_plain_import(Statement::ImportDeclaration(Box::new(d)), ts_component_name(to@.last()), d.string_literal.text@));
            }
            ensure_import(file, import_declaration)
        },
        None => Ok(()),
    }
}

/// `util.Long | number`.
pub open spec fn long_input() -> TsTypeV {
    TsTypeV::Union(seq![TsTypeV::Reference(seq!["util"@, "Long"@]), TsTypeV::Number])
}

/// `util.Long`.
pub open spec fn long_result() -> TsTypeV {
    TsTypeV::Reference(seq!["util"@, "Long"@])
}

/// The TypeScript type of a field of type `t`: an enum by its name, a message by the
/// name of its encoding interface, 64-bit integers as `long`.
pub open spec fn field_ts_type(root: RootScope, t: TypeV, long: TsTypeV) -> Option<TsTypeV>
    decreases t,
{
    match t {
        TypeV::Enum(id) => match declared_name(root, id as usize) {
            Some(n) => Some(TsTypeV::Reference(seq![n])),
            None => None,
        },
        TypeV::Message(id) => match declared_name(root, id as usize) {
            Some(n) => Some(TsTypeV::Reference(seq![encode_type_name_of(n)])),
            None => None,
        },
        TypeV::Repeated(e) => match field_ts_type(root, *e, long) {
            Some(x) => Some(TsTypeV::Array(Box::new(x))),
            None => None,
        },
        TypeV::MapOf(k, v) => match (field_ts_type(root, *k, long), field_ts_type(root, *v, long)) {
            (Some(x), Some(y)) => Some(TsTypeV::Record(Box::new(x), Box::new(y))),
            _ => None,
        },
        TypeV::Bool => Some(TsTypeV::Boolean),
        TypeV::Bytes => Some(TsTypeV::Reference(seq!["Uint8Array"@])),
        TypeV::String => Some(TsTypeV::String),
        TypeV::Int64 => Some(long),
        TypeV::Sfixed64 => Some(long),
        TypeV::Sint64 => Some(long),
        TypeV::Uint64 => Some(long),
        _ => Some(TsTypeV::Number),
    }
}

/// The path of the module `types` of message `parent`.
pub open spec fn types_module_path(root: RootScope, parent: usize) -> Option<Seq<TsPathComponentV>> {
    match declaration_path(root, parent) {
        Some(pp) => Some(pp.map_values(|c: PathComponentV| ts_component_of(c)).push(TsPathComponentV::File("types"@))),
        None => None,
    }
}

/// The path of what a `types` module imports for the declaration `id`: an enum itself,
/// a message's encoding interface in its module `types`.
pub open spec fn declaration_ts_target(root: RootScope, id: usize, is_enum: bool) -> Option<Seq<TsPathComponentV>> {
    match (declaration_path(root, id), declared_name(root, id)) {
        (Some(dp), Some(n)) => {
            let base = dp.map_values(|c: PathComponentV| ts_component_of(c));
            Some(if is_enum {
                base.push(TsPathComponentV::Enum(n))
            } else {
                base.push(TsPathComponentV::File("types"@)).push(TsPathComponentV::Interface(encode_type_name_of(n)))
            })
        },
        _ => None,
    }
}

/// Whether the module `types` of message `parent` can import the declaration `id`
/// (an enum by its name, a message by its encoding interface): both have paths, and
/// the declaration does not lie on the module's own path.
pub open spec fn declaration_importable(root: RootScope, parent: usize, id: usize, is_enum: bool) -> bool {
    match (types_module_path(root, parent), declaration_ts_target(root, id, is_enum)) {
        (Some(from), Some(to)) => import_path_ok(from, to),
        _ => false,
    }
}

/// What importing the declaration `id` does to the statements of the module `types`
/// of message `parent` (see `import_into`).
pub open spec fn declaration_import_effect(root: RootScope, parent: usize, id: usize, is_enum: bool, old: Seq<Statement>, new: Seq<Statement>) -> bool {
    match (types_module_path(root, parent), declaration_ts_target(root, id, is_enum)) {
        (Some(from), Some(to)) => match relative_import_text(from, to) {
            None => new == old,
            Some(path) => plain_import_effect(old, new, ts_component_name(to.last()), path),
        },
        _ => false,
    }
}

/// The types a field type is made of, in order: itself where it is an enum, a
/// message or a scalar; a map's key, then its value.
pub open spec fn type_leaves(t: TypeV) -> Seq<TypeV>
    decreases t,
{
    match t {
        TypeV::Repeated(e) => type_leaves(*e),
        TypeV::MapOf(k, v) => type_leaves(*k) + type_leaves(*v),
        _ => seq![t],
    }
}

/// What giving one such type its TypeScript type does to the statements of the module
/// `types` of message `parent`: an enum or a message imported (see `import_into`);
/// `util` imported from the runtime for a 64-bit integer; nothing for other scalars.
pub open spec fn leaf_import_effect(root: RootScope, parent: usize, t: TypeV, old: Seq<Statement>, new: Seq<Statement>) -> bool {
    match t {
        TypeV::Enum(id) => declaration_import_effect(root, parent, id as usize, true, old, new),
        TypeV::Message(id) => declaration_import_effect(root, parent, id as usize, false, old, new),
        TypeV::Int64 | TypeV::Sfixed64 | TypeV::Sint64 | TypeV::Uint64 => plain_import_effect(old, new, "util"@, "protobufjs/minimal"@),
        _ => new == old,
    }
}

/// `states` runs from `old` to `new`, each step the effect of one of `leaves`.
pub open spec fn effect_states(root: RootScope, parent: usize, leaves: Seq<TypeV>, old: Seq<Statement>, new: Seq<Statement>, states: Seq<Seq<Statement>>) -> bool {
    &&& states.len() == leaves.len() + 1
    &&& states[0] == old
    &&& states[leaves.len() as int] == new
    &&& forall|i: int| 0 <= i < leaves.len() ==> leaf_import_effect(root, parent, leaves[i], #[trigger] states[i], states[i + 1])
}

/// What giving a field of type `t` its TypeScript type does to the statements of the
/// module `types` of message `parent`: the effect of each type it is made of, in turn.
pub open spec fn type_import_effect(root: RootScope, parent: usize, t: TypeV, old: Seq<Statement>, new: Seq<Statement>) -> bool {
    exists|states: Seq<Seq<Statement>>| #[trigger] effect_states(root, parent, type_leaves(t), old, new, states)
}

/// The effects of two lists of types, one after the other, are that of both.
proof fn lemma_effect_states_concat(root: RootScope, parent: usize, a: Seq<TypeV>, b: Seq<TypeV>, s0: Seq<Statement>, s1: Seq<Statement>, s2: Seq<Statement>, x: Seq<Seq<Statement>>, y: Seq<Seq<Statement>>)
    requires
        effect_states(root, parent, a, s0, s1, x),
        effect_states(root, parent, b, s1, s2, y),
    ensures
        effect_states(root, parent, a + b, s0, s2, x + y.drop_first()),
{
    let z = x + y.drop_first();
    let ab = a + b;
    assert forall|i: int| 0 <= i < ab.len() implies leaf_import_effect(root, parent, ab[i], #[trigger] z[i], z[i + 1]) by {
        if i < a.len() {
            assert(ab[i] == a[i]);
            assert(z[i] == x[i]);
            if i + 1 < x.len() {
                assert(z[i + 1] == x[i + 1]);
            } else {
                assert(z[i + 1] == y.drop_first()[0]);
                assert(y.drop_first()[0] == y[1]);
                assert(x[i + 1] == s1 && y[0] == s1);
                assert(leaf_import_effect(root, parent, b[0], y[0], y[1]));
                assert(false);
            }
        } else {
            let j = i - a.len();
            assert(ab[i] == b[j]);
            if j == 0 {
                assert(z[i] == x[a.len() as int]);
                assert(z[i] == y[0]);
            } else {
                assert(z[i] == y.drop_first()[j - 1]);
                assert(z[i] == y[j]);
            }
            assert(z[i + 1] == y.drop_first()[j]);
            assert(z[i + 1] == y[j + 1]);
            assert(leaf_import_effect(root, parent, b[j], y[j], y[j + 1]));
        }
    }
    if b.len() == 0 {
        assert(z[ab.len() as int] == x[a.len() as int]);
    } else {
        assert(z[ab.len() as int] == y.drop_first()[b.len() - 1]);
    }
}

/// Each step keeps what follows the leading imports.
proof fn lemma_leaf_import_keeps_rest(root: RootScope, parent: usize, t: TypeV, old: Seq<Statement>, new: Seq<Statement>)
    requires
        leaf_import_effect(root, parent, t, old, new),
    ensures
        after_imports(new) == after_imports(old),
{
    match t {
        TypeV::Enum(id) => {
            if let (Some(from), Some(to)) = (types_module_path(root, parent), declaration_ts_target(root, id as usize, true)) {
                if let Some(path) = relative_import_text(from, to) {
                    lemma_plain_import_keeps_rest(old, new, ts_component_name(to.last()), path);
                }
            }
        },
        TypeV::Message(id) => {
            if let (Some(from), Some(to)) = (types_module_path(root, parent), declaration_ts_target(root, id as usize, false)) {
                if let Some(path) = relative_import_text(from, to) {
                    lemma_plain_import_keeps_rest(old, new, ts_component_name(to.last()), path);
                }
            }
        },
        TypeV::Int64 | TypeV::Sfixed64 | TypeV::Sint64 | TypeV::Uint64 => {
            lemma_plain_import_keeps_rest(old, new, "util"@, "protobufjs/minimal"@);
        },
        _ => {},
    }
}

/// A type made of itself alone has the effect of that one step.
proof fn lemma_leaf_effect(root: RootScope, parent: usize, t: TypeV, old: Seq<Statement>, new: Seq<Statement>)
    requires
        !(t is Repeated || t is MapOf),
        leaf_import_effect(root, parent, t, old, new),
    ensures
        type_import_effect(root, parent, t, old, new),
{
    let states = seq![old, new];
    assert(type_leaves(t) == seq![t]);
    assert(effect_states(root, parent, type_leaves(t), old, new, states));
}

/// A map's effect is its key's, then its value's.
proof fn lemma_map_effect(root: RootScope, parent: usize, k: TypeV, v: TypeV, s0: Seq<Statement>, s1: Seq<Statement>, s2: Seq<Statement>)
    requires
        type_import_effect(root, parent, k, s0, s1),
        type_import_effect(root, parent, v, s1, s2),
    ensures
        type_import_effect(root, parent, TypeV::MapOf(Box::new(k), Box::new(v)), s0, s2),
{
    let x = choose|states: Seq<Seq<Statement>>| #[trigger] effect_states(root, parent, type_leaves(k), s0, s1, states);
    let y = choose|states: Seq<Seq<Statement>>| #[trigger] effect_states(root, parent, type_leaves(v), s1, s2, states);
    lemma_effect_states_concat(root, parent, type_leaves(k), type_leaves(v), s0, s1, s2, x, y);
    assert(type_leaves(TypeV::MapOf(Box::new(k), Box::new(v))) == type_leaves(k) + type_leaves(v));
}

/// The first `i` steps keep what follows the leading imports.
proof fn lemma_states_keep_rest(root: RootScope, parent: usize, leaves: Seq<TypeV>, old: Seq<Statement>, new: Seq<Statement>, states: Seq<Seq<Statement>>, i: int)
    requires
        effect_states(root, parent, leaves, old, new, states),
        0 <= i <= leaves.len(),
    ensures
        after_imports(states[i]) == after_imports(old),
    decreases i,
{
    if i > 0 {
        lemma_states_keep_rest(root, parent, leaves, old, new, states, i - 1);
        lemma_leaf_import_keeps_rest(root, parent, leaves[i - 1], states[i - 1], states[i]);
    }
}

/// Giving a field its type leaves what follows the leading imports as it was.
pub proof fn lemma_type_import_keeps_rest(root: RootScope, parent: usize, t: TypeV, old: Seq<Statement>, new: Seq<Statement>)
    requires
        type_import_effect(root, parent, t, old, new),
    ensures
        after_imports(new) == after_imports(old),
{
    let leaves = type_leaves(t);
    let states = choose|states: Seq<Seq<Statement>>| #[trigger] effect_states(root, parent, leaves, old, new, states);
    lemma_states_keep_rest(root, parent, leaves, old, new, states, leaves.len() as int);
}

/// Whether every enum and message that a field type names can be imported into the
/// module `types` of message `parent`.
pub open spec fn type_importable(root: RootScope, parent: usize, t: TypeV) -> bool
    decreases t,
{
    match t {
        TypeV::Enum(id) => declaration_importable(root, parent, id as usize, true),
        TypeV::Message(id) => declaration_importable(root, parent, id as usize, false),
        TypeV::Repeated(e) => type_importable(root, parent, *e),
        TypeV::MapOf(k, v) => type_importable(root, parent, *k) && type_importable(root, parent, *v),
        _ => true,
    }
}

/// `import { util } from "protobufjs/minimal"`.
/// Where the module imports nothing from the runtime yet, the import is inserted
/// after its leading imports; where it does, `util` joins that import only if the
/// import binds nothing yet.
fn import_util(file: &mut File)
    ensures
        final(file).name == old(file).name,
        plain_import_effect(old(file).statements@, final(file).statements@, "util"@, "protobufjs/minimal"@),
{
    let mut specifiers: Vec<ImportSpecifier> = Vec::new();
    specifiers.push(ImportSpecifier::new(Identifier::new("util")));
    let runtime = StringLiteral::new(PROTOBUF_MODULE.to_string());
    assert(runtime.text@ == "protobufjs/minimal"@);
    let util_import = ImportDeclaration::import(specifiers, runtime);
    let ghost ui = util_import;
    proof {
        lemma_import_slot(file.statements@, "protobufjs/minimal"@);
        assert(!has_renamed_binding(ui.import_clause.named_bindings));
        assert(is_plain_import(Statement::ImportDeclaration(Box::new(ui)), "util"@, "protobufjs/minimal"@));
    }
    let _ = ensure_import(file, util_import);
}

/// `util.Long`.
fn util_long() -> (r: Type)
    ensures
        r@ == long_result(),
{
    let mut ids: Vec<Identifier> = Vec::new();
    ids.push(Identifier::new("util"));
    ids.push(Identifier::new("Long"));
    assert(identifier_texts(ids@) =~= seq!["util"@, "Long"@]);
    Type::TypeReference(ids)
}

/// The type of a field of type `field_type` of the message `message_id`, imported
/// into the module `types_file` of that message where it is declared elsewhere.
fn import_field_type(
    types_file: &mut File,
    root: &RootScope,
    message_id: usize,
    field_type: &FieldType,
    for_input: bool,
) -> (r: Result<Type, ProtoError>)
    ensures
        final(types_file).name == old(types_file).name,
        match field_ts_type(*root, field_type@, if for_input { long_input() } else { long_result() }) {
            Some(t) => r matches Ok(x) ==> x@ == t,
            None => r is Err,
        },
        r is Ok <==> type_importable(*root, message_id, field_type@),
        r is Ok ==> type_import_effect(*root, message_id, field_type@, old(types_file).statements@, final(types_file).statements@),
    decreases field_type,
{
    match field_type {
        FieldType::Enum(id) | FieldType::Message(id) => {
            let mut requested = declaration_ts_path(root, *id)?;
            proof {
                use_type_invariant(root);
                root.lemma_wf_paths_nonempty(*id);
            }
            let name = match root.get_declaration_name(*id) {
                Some(n) => n,
                None => return Err(ProtoError::new("Cannot find the name of a declaration")),
            };
            let imported_name = match field_type {
                FieldType::Enum(_) => {
                    requested.push(TsPathComponent::Enum(name.clone()));
                    name
                },
                _ => {
                    requested.push(TsPathComponent::File("types".to_string()));
                    let encode_name = message_name_to_encode_type_name(name.as_str());
                    requested.push(TsPathComponent::Interface(encode_name.clone()));
                    encode_name
                },
            };
            let mut current = declaration_ts_path(root, message_id)?;
            current.push(TsPathComponent::File("types".to_string()));
            let ghost before = types_file.statements@;
            import_into(types_file, &current, &requested)?;
            proof {
                lemma_leaf_effect(*root, message_id, field_type@, before, types_file.statements@);
            }
            Ok(Type::reference(Identifier::new(imported_name.as_str())))
        },
        FieldType::Repeated(e) => {
            let element_type = import_field_type(types_file, root, message_id, &**e, for_input)?;
            assert(type_leaves(field_type@) == type_leaves((**e)@));
            Ok(Type::array(element_type))
        },
        FieldType::MapOf(k, v) => {
            let ghost s0 = types_file.statements@;
            let key_type = import_field_type(types_file, root, message_id, &**k, for_input)?;
            let ghost s1 = types_file.statements@;
            let value_type = import_field_type(types_file, root, message_id, &**v, for_input)?;
            proof {
                lemma_map_effect(*root, message_id, (**k)@, (**v)@, s0, s1, types_file.statements@);
            }
            Ok(Type::Record(Box::new(key_type), Box::new(value_type)))
        },
        FieldType::Bool => {
            proof {
                lemma_leaf_effect(*root, message_id, field_type@, types_file.statements@, types_file.statements@);
            }
            Ok(Type::Boolean)
        },
        FieldType::Bytes => {
            proof {
                lemma_leaf_effect(*root, message_id, field_type@, types_file.statements@, types_file.statements@);
            }
            Ok(Type::from_id("Uint8Array"))
        },
        FieldType::String => {
            proof {
                lemma_leaf_effect(*root, message_id, field_type@, types_file.statements@, types_file.statements@);
            }
            Ok(Type::String)
        },
        FieldType::Int64 | FieldType::Sfixed64 | FieldType::Sint64 | FieldType::Uint64 => {
            let ghost before = types_file.statements@;
            import_util(types_file);
            proof {
                lemma_leaf_effect(*root, message_id, field_type@, before, types_file.statements@);
            }
            let long = util_long();
            if for_input {
                let t = long.or(&Type::Number);
                proof {
                    reveal_with_fuel(union_push, 3);
                    assert(union_push(Seq::empty(), long_result()) =~= seq![long_result()]);
                    assert(union_push(seq![long_result()], TsTypeV::Number) =~= seq![long_result(), TsTypeV::Number]);
                }
                Ok(t)
            } else {
                Ok(long)
            }
        },
        _ => {
            proof {
                lemma_leaf_effect(*root, message_id, field_type@, types_file.statements@, types_file.statements@);
            }
            Ok(Type::Number)
        },
    }
}

/// The type with which a field of type `field_type` appears in the interface that
/// the encoding function of message `message_id` takes.
pub fn import_encoding_input_type(types_file: &mut File, root: &RootScope, message_id: usize, field_type: &FieldType) -> (r: Result<Type, ProtoError>)
    ensures
        final(types_file).name == old(types_file).name,
        match field_ts_type(*root, field_type@, long_input()) {
            Some(t) => r matches Ok(x) ==> x@ == t,
            None => r is Err,
        },
        r is Ok <==> type_importable(*root, message_id, field_type@),
        r is Ok ==> type_import_effect(*root, message_id, field_type@, old(types_file).statements@, final(types_file).statements@),
{
    import_field_type(types_file, root, message_id, field_type, true)
}

/// The type with which a field of type `field_type` appears in the interface that
/// the decoding function of message `message_id` gives back.
pub fn import_decode_result_type(types_file: &mut File, root: &RootScope, message_id: usize, field_type: &FieldType) -> (r: Result<Type, ProtoError>)
    ensures
        final(types_file).name == old(types_file).name,
        match field_ts_type(*root, field_type@, long_result()) {
            Some(t) => r matches Ok(x) ==> x@ == t,
            None => r is Err,
        },
        r is Ok <==> type_importable(*root, message_id, field_type@),
        r is Ok ==> type_import_effect(*root, message_id, field_type@, old(types_file).statements@, final(types_file).statements@),
{
    import_field_type(types_file, root, message_id, field_type, false)
}

/// The property that a field gets in an interface: optional, its type or `null`.
pub open spec fn property_of(root: RootScope, f: Field, long: TsTypeV, m: InterfaceMember) -> bool {
    match m {
        InterfaceMember::PropertySignature(p) => {
            &&& p.name.text@ == json_name_of(attributes_view(f.attributes@), f.name@)
            &&& p.optional
            &&& field_ts_type(root, f.field_type@, long) matches Some(t)
            &&& p.property_type@ == type_of_union(union_push(union_push(Seq::empty(), t), TsTypeV::Null))
        },
    }
}

/// Whether `d` is the exported interface `name` with one property per field of
/// `entries`, in order.
pub open spec fn interface_of(root: RootScope, entries: Seq<MessageEntry>, name: Seq<char>, long: TsTypeV, d: InterfaceDeclaration) -> bool {
    &&& d.modifiers@ == seq![Modifier::Export]
    &&& d.name.text@ == name
    &&& d.members@.len() == entries.len()
    &&& forall|k: int| 0 <= k < entries.len() ==> (#[trigger] entries[k] matches MessageEntry::Field(f)
        && property_of(root, f, long, d.members@[k]))
}

/// Whether a message has a group of alternatives among its entries.
pub open spec fn has_one_of(entries: Seq<MessageEntry>) -> bool {
    exists|k: int| 0 <= k < entries.len() && #[trigger] entries[k] is OneOf
}

/// Whether the type of each field among the entries can be imported into the module
/// `types` of message `parent` (see `type_importable`).
pub open spec fn fields_importable(root: RootScope, parent: usize, entries: Seq<MessageEntry>) -> bool {
    forall|k: int| 0 <= k < entries.len() ==> (#[trigger] entries[k] matches MessageEntry::Field(f) ==> type_importable(root, parent, f.field_type@))
}

/// The types the fields among `entries` are made of, field after field.
pub open spec fn entries_leaves(entries: Seq<MessageEntry>) -> Seq<TypeV>
    decreases entries.len(),
{
    if entries.len() == 0 {
        Seq::empty()
    } else {
        entries_leaves(entries.drop_last()) + match entries.last() {
            MessageEntry::Field(f) => type_leaves(f.field_type@),
            MessageEntry::OneOf(_) => Seq::empty(),
        }
    }
}

/// What giving each field among `entries` its TypeScript type, in turn, does to the
/// statements of the module `types` of message `parent` (see `type_import_effect`).
pub open spec fn fields_import_effect(root: RootScope, parent: usize, entries: Seq<MessageEntry>, old: Seq<Statement>, new: Seq<Statement>) -> bool {
    exists|states: Seq<Seq<Statement>>| #[trigger] effect_states(root, parent, entries_leaves(entries), old, new, states)
}

/// Appends to `types_file` an interface with a property per field of the message.
fn insert_interface(types_file: &mut File, root: &RootScope, message: &MessageScope, name: String, for_input: bool) -> (r: Result<(), ProtoError>)
    ensures
        final(types_file).name == old(types_file).name,
        has_one_of(message.entries@) ==> r is Err,
        r is Ok <==> !has_one_of(message.entries@) && fields_importable(*root, message.id, message.entries@),
        r is Ok ==> final(types_file).statements@.len() > 0,
        r is Ok ==> (final(types_file).statements@.last() matches Statement::InterfaceDeclaration(d)
            && interface_of(*root, message.entries@, name@, if for_input { long_input() } else { long_result() }, *d)),
        r is Ok ==> after_imports(final(types_file).statements@) == after_imports(old(types_file).statements@).push(
            final(types_file).statements@.last(),
        ),
        r is Ok ==> fields_import_effect(*root, message.id, message.entries@, old(types_file).statements@,
            final(types_file).statements@.drop_last()),
{
    let mut interface = InterfaceDeclaration::new_exported(name.as_str());
    proof {
        let leaves0 = entries_leaves(message.entries@.take(0));
        assert(message.entries@.take(0) =~= Seq::<MessageEntry>::empty());
        assert(effect_states(*root, message.id, leaves0, types_file.statements@, types_file.statements@, seq![types_file.statements@]));
    }
    let ghost long = if for_input { long_input() } else { long_result() };
    let mut k: usize = 0;
    while k < message.entries.len()
        invariant
            types_file.name == old(types_file).name,
            after_imports(types_file.statements@) == after_imports(old(types_file).statements@),
            k <= message.entries@.len(),
            long == (if for_input { long_input() } else { long_result() }),
            interface.modifiers@ == seq![Modifier::Export],
            interface.name.text@ == name@,
            interface.members@.len() == k,
            forall|q: int| 0 <= q < k ==> (#[trigger] message.entries@[q] matches MessageEntry::Field(f)
                && property_of(*root, f, long, interface.members@[q])
                && type_importable(*root, message.id, f.field_type@)),
            fields_import_effect(*root, message.id, message.entries@.take(k as int), old(types_file).statements@, types_file.statements@),
        decreases message.entries@.len() - k,
    {
        match &message.entries[k] {
            MessageEntry::Field(f) => {
                let ghost before_import = types_file.statements@;
                let t = import_field_type(types_file, root, message.id, &f.field_type, for_input)?;
                proof {
                    lemma_type_import_keeps_rest(*root, message.id, f.field_type@, before_import, types_file.statements@);
                    let a = entries_leaves(message.entries@.take(k as int));
                    let b = type_leaves(f.field_type@);
                    let x = choose|x: Seq<Seq<Statement>>| #[trigger] effect_states(*root, message.id, a, old(types_file).statements@, before_import, x);
                    let y = choose|y: Seq<Seq<Statement>>| #[trigger] effect_states(*root, message.id, b, before_import, types_file.statements@, y);
                    lemma_effect_states_concat(*root, message.id, a, b, old(types_file).statements@, before_import, types_file.statements@, x, y);
                    let t = message.entries@.take(k + 1);
                    assert(t.drop_last() =~= message.entries@.take(k as int));
                    assert(t.last() == message.entries@[k as int]);
                    assert(entries_leaves(t) == a + b);
                    assert(effect_states(*root, message.id, entries_leaves(t), old(types_file).statements@, types_file.statements@, x + y.drop_first()));
                }
                let property_type = t.or(&Type::Null);
                let property = PropertySignature::new_optional(f.json_name().as_str(), property_type);
                let ghost before = interface.members@;
                interface.members.push(InterfaceMember::PropertySignature(property));
                proof {
                    assert forall|q: int| 0 <= q < k + 1 implies (#[trigger] message.entries@[q] matches MessageEntry::Field(f)
                        && property_of(*root, f, long, interface.members@[q])) by {
                        if q < k {
                            assert(interface.members@[q] == before[q]);
                        }
                    }
                }
            },
            MessageEntry::OneOf(_) => {
                assert(message.entries@[k as int] is OneOf);
                return Err(ProtoError::NotImplemented("handling of OneOf Field".to_string()));
            },
        }
        k = k + 1;
    }
    proof {
        if has_one_of(message.entries@) {
            let q = choose|q: int| 0 <= q < message.entries@.len() && #[trigger] message.entries@[q] is OneOf;
            assert(message.entries@[q] matches MessageEntry::Field(_));
        }
    }
    let ghost before_push = types_file.statements@;
    let declaration = Statement::InterfaceDeclaration(Box::new(interface));
    proof {
        lemma_push_after_imports(before_push, declaration);
        assert(message.entries@.take(message.entries@.len() as int) =~= message.entries@);
    }
    types_file.push_statement(declaration);
    assert(types_file.statements@.drop_last() =~= before_push);
    Ok(())
}

/// Appends the interface that the encoding function of the message takes: `I<name>`.
pub fn insert_encoded_input_interface(types_file: &mut File, root: &RootScope, message: &MessageScope) -> (r: Result<(), ProtoError>)
    ensures
        final(types_file).name == old(types_file).name,
        has_one_of(message.entries@) ==> r is Err,
        r is Ok <==> !has_one_of(message.entries@) && fields_importable(*root, message.id, message.entries@),
        r is Ok ==> final(types_file).statements@.len() > 0,
        r is Ok ==> (final(types_file).statements@.last() matches Statement::InterfaceDeclaration(d)
            && interface_of(*root, message.entries@, encode_type_name_of(message.name@), long_input(), *d)),
        r is Ok ==> after_imports(final(types_file).statements@) == after_imports(old(types_file).statements@).push(
            final(types_file).statements@.last(),
        ),
        r is Ok ==> fields_import_effect(*root, message.id, message.entries@, old(types_file).statements@,
            final(types_file).statements@.drop_last()),
{
    let name = message_name_to_encode_type_name(message.name.as_str());
    insert_interface(types_file, root, message, name, true)
}

/// Appends the interface that the decoding function of the message gives back,
/// named as the message.
pub fn insert_decode_result_interface(types_file: &mut File, root: &RootScope, message: &MessageScope) -> (r: Result<(), ProtoError>)
    ensures
        final(types_file).name == old(types_file).name,
        has_one_of(message.entries@) ==> r is Err,
        r is Ok <==> !has_one_of(message.entries@) && fields_importable(*root, message.id, message.entries@),
        r is Ok ==> final(types_file).statements@.len() > 0,
        r is Ok ==> (final(types_file).statements@.last() matches Statement::InterfaceDeclaration(d)
            && interface_of(*root, message.entries@, message.name@, long_result(), *d)),
        r is Ok ==> after_imports(final(types_file).statements@) == after_imports(old(types_file).statements@).push(
            final(types_file).statements@.last(),
        ),
        r is Ok ==> fields_import_effect(*root, message.id, message.entries@, old(types_file).statements@,
            final(types_file).statements@.drop_last()),
{
    insert_interface(types_file, root, message, message.name.clone(), false)
}

/// Whether `f` is the module `types` of message `m`: imports, then the interface its
/// encoding function takes, then the one its decoding function gives back; the
/// statements are what importing the types of the fields (see `fields_import_effect`),
/// adding the first interface, importing them again and adding the second interface
/// make of an empty module.
#[verifier::opaque]
pub open spec fn types_module(root: RootScope, m: MessageScope, f: File) -> bool {
    let ss = f.statements@;
    &&& f.name@ == "types"@
    &&& ss.len() >= 2
    &&& all_imports(ss.subrange(0, ss.len() - 2))
    &&& exists|mid: Seq<Statement>| #[trigger] fields_import_effect(root, m.id, m.entries@, Seq::empty(), mid)
        && fields_import_effect(root, m.id, m.entries@, mid.push(ss[ss.len() - 2]), ss.drop_last())
    &&& ss[ss.len() - 2] matches Statement::InterfaceDeclaration(d)
        && interface_of(root, m.entries@, encode_type_name_of(m.name@), long_input(), *d)
    &&& ss[ss.len() - 1] matches Statement::InterfaceDeclaration(d)
        && interface_of(root, m.entries@, m.name@, long_result(), *d)
}

/// Adds to the folder of a message its module `types`: the interface its encoding
/// function takes, then the one its decoding function gives back.
pub fn insert_message_types(root: &RootScope, message_folder: &mut Folder, message_scope: &MessageScope) -> (r: Result<(), ProtoError>)
    ensures
        has_one_of(message_scope.entries@) ==> r is Err,
        r is Ok <==> !has_one_of(message_scope.entries@) && fields_importable(*root, message_scope.id, message_scope.entries@),
        r is Ok ==> (final(message_folder).name == old(message_folder).name
            && final(message_folder).entries@.len() == old(message_folder).entries@.len() + 1
            && final(message_folder).entries@.subrange(0, old(message_folder).entries@.len() as int) == old(message_folder).entries@
            && (final(message_folder).entries@.last() matches FolderEntry::File(f) && types_module(*root, *message_scope, *f))),
{
    let mut file = File::new("types".to_string());
    proof {
        lemma_leading_imports(file.statements@);
        assert(after_imports(file.statements@) =~= Seq::<Statement>::empty());
    }
    assert(file.statements@ =~= Seq::<Statement>::empty());
    insert_encoded_input_interface(&mut file, root, message_scope)?;
    let ghost input = file.statements@.last();
    let ghost first = file.statements@;
    insert_decode_result_interface(&mut file, root, message_scope)?;
    proof {
        let ss = file.statements@;
        let mid = first.drop_last();
        assert(first =~= mid.push(input));
        let n = leading_imports(ss) as int;
        lemma_leading_imports(ss);
        assert(after_imports(ss) =~= seq![input, ss.last()]);
        assert(ss.skip(n).len() == 2);
        assert(n == ss.len() - 2);
        assert(ss[ss.len() - 2] == ss.skip(n)[0]);
        assert(ss[ss.len() - 2] == input);
        assert(fields_import_effect(*root, message_scope.id, message_scope.entries@, Seq::empty(), mid));
        assert(all_imports(ss.subrange(0, ss.len() - 2))) by {
            assert forall|k: int| 0 <= k < ss.len() - 2 implies (#[trigger] ss.subrange(0, ss.len() - 2)[k]) is ImportDeclaration by {
                assert(ss.subrange(0, ss.len() - 2)[k] == ss[k]);
            }
        }
    }
    message_folder.push_file(file);
    assert(message_folder.entries@.subrange(0, old(message_folder).entries@.len() as int) =~= old(message_folder).entries@);
    proof {
        reveal(types_module);
    }
    Ok(())
}

} // verus!
