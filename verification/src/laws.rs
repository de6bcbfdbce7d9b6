//! Properties of the library that span its operations.
use vstd::prelude::*;
use crate::compiler::ast::{ImportDeclaration, Statement, TsTypeV, type_of_union, union_push, union_push_all};
use crate::compiler::encode_compiler::{insert_by_tag, sort_by_tag};
use crate::compiler::imports::{has_renamed_binding, import_outcome, import_slot, imports_from, lemma_import_slot_same_paths, merge_keeps};
use crate::compiler::render::{indent_run, indent_text, IndentState};
use crate::package::{Declaration, FieldV, ProtoFile, TypeRefV, basic_of_name, is_basic_ref, last_declaration_index, type_ref_of_ids, type_ref_text};
use crate::package_tree::{PackageTree, file_at, file_key, lemma_placed_each, no_duplicate_before, placed};
use crate::proto_scope::{RootScope, type_names, ProtoScope, first_named, resolve_names, scope_children, scope_component, scope_name};
use crate::protopath::{component_name};
use crate::compiler::types_compiler::{declaration_path, declared_name};
use crate::package::{basic_wire_type_of, map_key_wire_type_of, packed_wire_type_of, is_scalar, json_name_of, resolved_packed_wire_type, resolved_wire_type, scalar_name, trivial_resolution, TypeV};
use crate::compiler::constants::{DefaultValue, default_of, default_of_ref};
use crate::compiler::decode_compiler::default_text;
use crate::compiler::encode_compiler::{field_encode_text, if_block_text, method_call_text, message_value_text, present_text};
use crate::compiler::types_compiler::{field_ts_type, long_input, long_result};
use crate::compiler::constants::encode_type_name_of;
use crate::lexems::{LexemV, LocatedChar, LocatedLexemV, lex_from, spec_is_whitespace};
use crate::syntax::p_package_path;
use crate::text::int_text;
use crate::block_scope::{DefinedIdV, IdTypeV, ScopeV, id_resolve_v, lemma_path_failure_stays, nested_declaration, path_resolve_v, scope_resolve_v};

verus! {

/// A list of union members as `UnionType::push` keeps it: no member twice, none of
/// them `never` or itself a union.
pub open spec fn flat_and_distinct(types: Seq<TsTypeV>) -> bool {
    &&& forall|i: int, j: int| 0 <= i < j < types.len() ==> types[i] != types[j]
    &&& forall|i: int| 0 <= i < types.len() ==> !(#[trigger] types[i] is Never) && !(types[i] is Union)
}

/// Adding types to a union keeps its members flat and distinct, keeps the members it
/// had, in order, at its front.
pub proof fn law_union_push_keeps_members_flat_and_distinct(types: Seq<TsTypeV>, t: TsTypeV)
    requires
        flat_and_distinct(types),
    ensures
        flat_and_distinct(union_push(types, t)),
        union_push(types, t).len() >= types.len(),
        union_push(types, t).subrange(0, types.len() as int) == types,
    decreases t, 0int,
{
    match t {
        TsTypeV::Never => {
            assert(types.subrange(0, types.len() as int) =~= types);
        },
        TsTypeV::Union(us) => {
            law_union_push_all_keeps_members_flat_and_distinct(types, us);
        },
        _ => {
            if types.contains(t) {
                assert(types.subrange(0, types.len() as int) =~= types);
            } else {
                let r = types.push(t);
                assert(r.subrange(0, types.len() as int) =~= types);
                assert forall|i: int, j: int| 0 <= i < j < r.len() implies r[i] != r[j] by {
                    if j == types.len() {
                        assert(r[i] == types[i]);
                    }
                }
            }
        },
    }
}

/// Adding each member of a union in turn keeps the members flat and distinct.
pub proof fn law_union_push_all_keeps_members_flat_and_distinct(types: Seq<TsTypeV>, us: Seq<TsTypeV>)
    requires
        flat_and_distinct(types),
    ensures
        flat_and_distinct(union_push_all(types, us)),
        union_push_all(types, us).len() >= types.len(),
        union_push_all(types, us).subrange(0, types.len() as int) == types,
    decreases us, us.len(),
{
    if us.len() == 0 {
        assert(types.subrange(0, types.len() as int) =~= types);
    } else {
        let p = us.subrange(0, us.len() - 1);
        law_union_push_all_keeps_members_flat_and_distinct(types, p);
        let mid = union_push_all(types, p);
        law_union_push_keeps_members_flat_and_distinct(mid, us[us.len() - 1]);
        let r = union_push(mid, us[us.len() - 1]);
        assert(r.subrange(0, types.len() as int) =~= r.subrange(0, mid.len() as int).subrange(0, types.len() as int));
    }
}

/// A type joined with itself is that type, unless it is a union or `never`.
pub proof fn law_or_with_itself(t: TsTypeV)
    requires
        !(t is Union),
        !(t is Never),
    ensures
        type_of_union(union_push(union_push(Seq::empty(), t), t)) == t,
{
    assert(!Seq::<TsTypeV>::empty().contains(t));
    assert(union_push(Seq::empty(), t) =~= seq![t]);
    assert(seq![t].contains(t)) by {
        assert(seq![t][0] == t);
    }
}

/// Once an import from a path is inserted, a second import from the same path finds
/// it in the same place: it is merged there and nothing more is inserted.
pub proof fn law_second_import_from_a_path_merges(ss: Seq<Statement>, d: ImportDeclaration)
    requires
        !imports_from(ss, import_slot(ss, d.string_literal.text@), d.string_literal.text@),
    ensures
        ({
            let slot = import_slot(ss, d.string_literal.text@);
            let after = ss.insert(slot, Statement::ImportDeclaration(Box::new(d)));
            import_slot(after, d.string_literal.text@) == slot && imports_from(after, slot, d.string_literal.text@)
        }),
    decreases ss.len(),
{
    let path = d.string_literal.text@;
    let slot = import_slot(ss, path);
    lemma_import_slot_range(ss, path);
    let after = ss.insert(slot, Statement::ImportDeclaration(Box::new(d)));
    if slot == 0 {
        assert(after[0] == Statement::ImportDeclaration(Box::new(d)));
    } else {
        match ss[0] {
            Statement::ImportDeclaration(x) => {
                assert(x.string_literal.text@ != path);
                let rest = ss.drop_first();
                assert(import_slot(rest, path) == slot - 1);
                law_second_import_from_a_path_merges(rest, d);
                assert(after.drop_first() =~= rest.insert(slot - 1, Statement::ImportDeclaration(Box::new(d))));
                assert(after[0] == ss[0]);
            },
            _ => {},
        }
    }
}

proof fn lemma_import_slot_range(ss: Seq<Statement>, path: Seq<char>)
    ensures
        0 <= import_slot(ss, path) <= ss.len(),
    decreases ss.len(),
{
    if ss.len() > 0 {
        lemma_import_slot_range(ss.drop_first(), path);
    }
}

/// Whether the fields are in ascending order of number.
pub open spec fn ascending(fs: Seq<FieldV>) -> bool {
    forall|i: int, j: int| 0 <= i < j < fs.len() ==> fs[i].tag <= fs[j].tag
}

proof fn lemma_insert_ascending(fs: Seq<FieldV>, f: FieldV)
    requires
        ascending(fs),
    ensures
        ascending(insert_by_tag(fs, f)),
        insert_by_tag(fs, f).len() == fs.len() + 1,
        forall|k: int| 0 <= k < insert_by_tag(fs, f).len() ==> (#[trigger] insert_by_tag(fs, f)[k] == f
            || fs.contains(insert_by_tag(fs, f)[k])),
    decreases fs.len(),
{
    if fs.len() == 0 {
    } else if fs[0].tag > f.tag {
        let r = insert_by_tag(fs, f);
        assert forall|i: int, j: int| 0 <= i < j < r.len() implies r[i].tag <= r[j].tag by {
            if i == 0 {
                assert(r[j] == fs[j - 1]);
                assert(fs[0].tag <= fs[j - 1].tag || j == 1);
            } else {
                assert(r[i] == fs[i - 1]);
                assert(r[j] == fs[j - 1]);
            }
        }
        assert forall|k: int| 0 <= k < r.len() implies (#[trigger] r[k] == f || fs.contains(r[k])) by {
            if k > 0 {
                assert(r[k] == fs[k - 1]);
            }
        }
    } else {
        let rest = fs.drop_first();
        assert(ascending(rest)) by {
            assert forall|i: int, j: int| 0 <= i < j < rest.len() implies rest[i].tag <= rest[j].tag by {
                assert(rest[i] == fs[i + 1]);
                assert(rest[j] == fs[j + 1]);
            }
        }
        lemma_insert_ascending(rest, f);
        let rr = insert_by_tag(rest, f);
        let r = insert_by_tag(fs, f);
        assert forall|k: int| 0 <= k < r.len() implies (#[trigger] r[k] == f || fs.contains(r[k])) by {
            if k == 0 {
                assert(r[0] == fs[0]);
            } else {
                assert(r[k] == rr[k - 1]);
                if rr[k - 1] != f {
                    assert(rest.contains(rr[k - 1]));
                    let w = choose|w: int| 0 <= w < rest.len() && rest[w] == rr[k - 1];
                    assert(fs[w + 1] == r[k]);
                }
            }
        }
        assert forall|i: int, j: int| 0 <= i < j < r.len() implies r[i].tag <= r[j].tag by {
            if i == 0 {
                assert(r[0] == fs[0]);
                assert(r[j] == rr[j - 1]);
                if rr[j - 1] != f {
                    let w = choose|w: int| 0 <= w < rest.len() && rest[w] == rr[j - 1];
                    assert(fs[w + 1] == rest[w]);
                }
            } else {
                assert(r[i] == rr[i - 1]);
                assert(r[j] == rr[j - 1]);
            }
        }
    }
}

/// The fields that the encoding function writes come in ascending order of number,
/// one for each field of the message.
pub proof fn law_fields_are_written_in_order_of_number(fs: Seq<FieldV>)
    ensures
        ascending(sort_by_tag(fs)),
        sort_by_tag(fs).len() == fs.len(),
    decreases fs.len(),
{
    if fs.len() > 0 {
        law_fields_are_written_in_order_of_number(fs.drop_last());
        lemma_insert_ascending(sort_by_tag(fs.drop_last()), fs.last());
    }
}

/// A line without line breaks is indented as two spaces, the line, and `\n`.
pub proof fn law_single_line_is_indented_once(s: Seq<char>)
    requires
        s.len() > 0,
        !s.contains('\n'),
        !s.contains('\r'),
    ensures
        indent_text(s) == "  "@ + s + seq!['\n'],
{
    lemma_indent_run_no_breaks(s);
}

proof fn lemma_indent_run_no_breaks(s: Seq<char>)
    requires
        s.len() > 0,
        !s.contains('\n'),
        !s.contains('\r'),
    ensures
        indent_run(s) == (IndentState { out: "  "@ + s, at_line_start: false, pending_cr: false }),
    decreases s.len(),
{
    let p = s.drop_last();
    assert(!p.contains('\n')) by {
        if p.contains('\n') {
            let k = choose|k: int| 0 <= k < p.len() && p[k] == '\n';
            assert(s[k] == '\n');
        }
    }
    assert(!p.contains('\r')) by {
        if p.contains('\r') {
            let k = choose|k: int| 0 <= k < p.len() && p[k] == '\r';
            assert(s[k] == '\r');
        }
    }
    assert(s.last() != '\n' && s.last() != '\r') by {
        assert(s[s.len() - 1] == s.last());
    }
    if p.len() == 0 {
        assert(indent_run(p) == (IndentState { out: Seq::<char>::empty(), at_line_start: true, pending_cr: false }));
        assert(("  "@ + Seq::<char>::empty()) + seq![s.last()] =~= "  "@ + s);
    } else {
        lemma_indent_run_no_breaks(p);
        assert(("  "@ + p) + seq![s.last()] =~= "  "@ + s);
    }
}

/// The path found by following names down the scope tree ends with the last of them.
pub proof fn law_declaration_path_ends_with_its_name(children: Seq<ProtoScope>, names: Seq<Seq<char>>)
    requires
        names.len() > 0,
        resolve_names(children, names) is Some,
    ensures
        resolve_names(children, names)->0.len() == names.len(),
        component_name(resolve_names(children, names)->0.last()) == names.last(),
    decreases names.len(),
{
    lemma_first_named(children, names[0]);
    let i = first_named(children, names[0])->0;
    let rest = names.drop_first();
    let c = children[i];
    assert(component_name(scope_component(c)) == scope_name(c)) by {
        match c {
            ProtoScope::Package(_) => {},
            ProtoScope::File(_) => {},
            ProtoScope::Enum(_) => {},
            ProtoScope::Message(_) => {},
        }
    }
    if rest.len() > 0 {
        law_declaration_path_ends_with_its_name(scope_children(c), rest);
        assert(names.last() == rest.last());
    }
}

proof fn lemma_first_named(children: Seq<ProtoScope>, name: Seq<char>)
    ensures
        first_named(children, name) matches Some(i) ==> 0 <= i < children.len() && scope_name(children[i]) == name,
    decreases children.len(),
{
    if children.len() > 0 && scope_name(children[0]) != name {
        lemma_first_named(children.drop_first(), name);
    }
}

/// When no two of a list of files share a place, the package tree built from the
/// list holds each file at its place: below the unnamed root, along its packages
/// (see `file_key`), under its name.
pub proof fn law_each_file_lands_at_its_package(files: Seq<ProtoFile>, tree: PackageTree, i: int)
    requires
        0 <= i < files.len(),
        no_duplicate_before(files, files.len() as int),
        forall|path: Seq<Seq<char>>, n: Seq<char>| #[trigger] file_at(tree, path, n) == placed(files, path, n),
    ensures
        file_at(tree, file_key(files[i]), files[i].name@) == Some(files[i]),
{
    lemma_placed_each(files, i);
}

/// A scalar type written out is read back as that scalar type.
pub proof fn law_scalar_name_maps_back(t: TypeRefV)
    requires
        is_basic_ref(t),
    ensures
        type_ref_of_ids(seq![type_ref_text(t)]) == t,
{
    reveal_strlit("bool");
    reveal_strlit("bytes");
    reveal_strlit("double");
    reveal_strlit("fixed32");
    reveal_strlit("fixed64");
    reveal_strlit("float");
    reveal_strlit("int32");
    reveal_strlit("int64");
    reveal_strlit("sfixed32");
    reveal_strlit("sfixed64");
    reveal_strlit("sint32");
    reveal_strlit("sint64");
    reveal_strlit("string");
    reveal_strlit("uint32");
    reveal_strlit("uint64");
    assert(seq![type_ref_text(t)][0] == type_ref_text(t));
    match t {
        TypeRefV::Bool => {
            assert(basic_of_name(type_ref_text(t)) == Some(TypeRefV::Bool));
        },
        TypeRefV::Bytes => {
            assert(basic_of_name(type_ref_text(t)) == Some(TypeRefV::Bytes));
        },
        TypeRefV::Double => {
            assert(basic_of_name(type_ref_text(t)) == Some(TypeRefV::Double));
        },
        TypeRefV::Fixed32 => {
            assert(basic_of_name(type_ref_text(t)) == Some(TypeRefV::Fixed32));
        },
        TypeRefV::Fixed64 => {
            assert("fixed64"@[5] != "fixed32"@[5]);
            assert(basic_of_name(type_ref_text(t)) == Some(TypeRefV::Fixed64));
        },
        TypeRefV::Float => {
            assert("float"@[0] != "bytes"@[0]);
            assert(basic_of_name(type_ref_text(t)) == Some(TypeRefV::Float));
        },
        TypeRefV::Int32 => {
            assert("int32"@[0] != "bytes"@[0]);
            assert("int32"@[0] != "float"@[0]);
            assert(basic_of_name(type_ref_text(t)) == Some(TypeRefV::Int32));
        },
        TypeRefV::Int64 => {
            assert("int64"@[0] != "bytes"@[0]);
            assert("int64"@[0] != "float"@[0]);
            assert("int64"@[3] != "int32"@[3]);
            assert(basic_of_name(type_ref_text(t)) == Some(TypeRefV::Int64));
        },
        TypeRefV::Sfixed32 => {
            assert(basic_of_name(type_ref_text(t)) == Some(TypeRefV::Sfixed32));
        },
        TypeRefV::Sfixed64 => {
            assert("sfixed64"@[6] != "sfixed32"@[6]);
            assert(basic_of_name(type_ref_text(t)) == Some(TypeRefV::Sfixed64));
        },
        TypeRefV::Sint32 => {
            assert("sint32"@[0] != "double"@[0]);
            assert(basic_of_name(type_ref_text(t)) == Some(TypeRefV::Sint32));
        },
        TypeRefV::Sint64 => {
            assert("sint64"@[0] != "double"@[0]);
            assert("sint64"@[4] != "sint32"@[4]);
            assert(basic_of_name(type_ref_text(t)) == Some(TypeRefV::Sint64));
        },
        TypeRefV::String => {
            assert("string"@[0] != "double"@[0]);
            assert("string"@[1] != "sint32"@[1]);
            assert("string"@[1] != "sint64"@[1]);
            assert(basic_of_name(type_ref_text(t)) == Some(TypeRefV::String));
        },
        TypeRefV::Uint32 => {
            assert("uint32"@[0] != "double"@[0]);
            assert("uint32"@[0] != "sint32"@[0]);
            assert("uint32"@[0] != "sint64"@[0]);
            assert("uint32"@[0] != "string"@[0]);
            assert(basic_of_name(type_ref_text(t)) == Some(TypeRefV::Uint32));
        },
        TypeRefV::Uint64 => {
            assert("uint64"@[0] != "double"@[0]);
            assert("uint64"@[0] != "sint32"@[0]);
            assert("uint64"@[0] != "sint64"@[0]);
            assert("uint64"@[0] != "string"@[0]);
            assert("uint64"@[4] != "uint32"@[4]);
            assert(basic_of_name(type_ref_text(t)) == Some(TypeRefV::Uint64));
        },
        _ => {},
    }
}

/// Where the path of a declaration is known, its name is the name of the last step
/// of that path.
pub proof fn law_declaration_name_is_last_of_its_path(root: RootScope, id: usize)
    requires
        root.wf(),
    ensures
        declaration_path(root, id) matches Some(p) ==> declared_name(root, id) == Some(component_name(p.last())),
{
    root.lemma_wf_paths_nonempty(id);
    if let Some(ns) = type_names(root.type_paths(), id) {
        if resolve_names(root.scopes(), ns) is Some {
            law_declaration_path_ends_with_its_name(root.scopes(), ns);
        }
    }
}

/// Adding an import a second time changes nothing: where none of its bindings renames
/// what it imports, both additions succeed and the second leaves the statements exactly
/// as the first left them.
pub proof fn law_adding_an_import_again_changes_nothing(
    ss: Seq<Statement>,
    s1: Seq<Statement>,
    s2: Seq<Statement>,
    d: ImportDeclaration,
    ok1: bool,
    ok2: bool,
)
    requires
        !has_renamed_binding(d.import_clause.named_bindings),
        import_outcome(ss, s1, d, ok1),
        import_outcome(s1, s2, d, ok2),
    ensures
        ok1,
        ok2,
        s2 == s1,
{
    let path = d.string_literal.text@;
    let slot = import_slot(ss, path);
    lemma_import_slot_range(ss, path);
    if !imports_from(ss, slot, path) {
        law_second_import_from_a_path_merges(ss, d);
        ss.insert_ensures(slot, Statement::ImportDeclaration(Box::new(d)));
        assert(s1[slot] == Statement::ImportDeclaration(Box::new(d)));
    } else {
        lemma_import_slot_same_paths(ss, s1, slot, path);
    }
    assert(import_slot(s1, path) == slot);
    assert(imports_from(s1, slot, path));
    assert(s1[slot] matches Statement::ImportDeclaration(x)
        && merge_keeps(x.import_clause.named_bindings, d.import_clause.named_bindings));
}

/// A dotted path resolves step by step: a single name as the scope resolves it; a longer
/// path as its last name resolves inside what the rest of the path gave, where that
/// succeeded, and otherwise as the rest of the path did (an error, or a failure on an
/// import without packages).
pub proof fn law_path_resolves_step_by_step(s: ScopeV, path: Seq<Seq<char>>)
    requires
        path.len() >= 1,
    ensures
        path.len() == 1 ==> path_resolve_v(s, path) == scope_resolve_v(s, path[0]),
        path.len() > 1 ==> path_resolve_v(s, path) == match path_resolve_v(s, path.drop_last()) {
            Some(Ok(id)) => id_resolve_v(id, path.last()),
            other => other,
        },
{
}

/// The first step of a dotted path that does not resolve decides the whole path: what
/// the path resolves to is what its first `i` names resolved to.
pub proof fn law_first_failing_step_decides_the_path(s: ScopeV, path: Seq<Seq<char>>, i: int)
    requires
        1 <= i <= path.len(),
        !(path_resolve_v(s, path.take(i)) matches Some(Ok(_))),
    ensures
        path_resolve_v(s, path) == path_resolve_v(s, path.take(i)),
{
    lemma_path_failure_stays(s, path, i, path.len() as int);
    assert(path.take(path.len() as int) =~= path);
}

/// Inside an enum no name resolves; inside a message a name resolves exactly where the
/// message declares it, to the last such declaration, with the message pushed onto the
/// enclosing messages; inside an imported file a name resolves as it does at the top of
/// that file.
pub proof fn law_names_resolve_inside_a_resolved_name(id: DefinedIdV, name: Seq<char>)
    ensures
        id.declaration matches IdTypeV::DataType(Declaration::Enum(_)) ==> id_resolve_v(id, name) matches Some(Err(_)),
        id.declaration matches IdTypeV::DataType(Declaration::Message(m)) ==> {
            &&& (id_resolve_v(id, name) matches Some(Ok(_))) <==> last_declaration_index(m.entries@, name) is Some
            &&& id_resolve_v(id, name) matches Some(Ok(d)) ==> {
                &&& d.declaration == IdTypeV::DataType(nested_declaration(m, name))
                &&& d.scope == (ScopeV { root: id.scope.root, file: id.scope.file, parents: seq![m] + id.scope.parents })
            }
            &&& id_resolve_v(id, name) matches Some(_)
        },
        id.declaration matches IdTypeV::Package(p) ==> id_resolve_v(id, name) == scope_resolve_v(
            ScopeV { root: id.scope.root, file: p, parents: Seq::empty() },
            name,
        ),
{
}

/// Each scalar type goes on the wire as the protobuf table says: the 64-bit fixed-size
/// types (`double`, `fixed64`, `sfixed64`) with wire type 1, the 32-bit ones (`float`,
/// `fixed32`, `sfixed32`) with 5, `string` and `bytes` length-delimited with 2, and every
/// other scalar (the varints and `bool`) with 0.
pub proof fn law_wire_types_follow_the_protobuf_table(t: TypeV)
    requires
        is_scalar(t),
    ensures
        resolved_wire_type(t) == 1 <==> (t is Double || t is Fixed64 || t is Sfixed64),
        resolved_wire_type(t) == 5 <==> (t is Float || t is Fixed32 || t is Sfixed32),
        resolved_wire_type(t) == 2 <==> (t is String || t is Bytes),
        resolved_wire_type(t) == 0 <==> (t is Bool || t is Int32 || t is Int64 || t is Uint32 || t is Uint64
            || t is Sint32 || t is Sint64),
{
}

/// The wire type of a scalar is the same whether it is read off the schema's type
/// reference or off the type it resolves to, as a map key or packed in a repeated field;
/// exactly the scalars other than `string` and `bytes` can be packed, and a resolved
/// scalar is spelled as the schema spells the type it resolves from.
pub proof fn law_wire_types_agree(r: TypeRefV, t: TypeV)
    ensures
        is_basic_ref(r) && trivial_resolution(r) == Some(t) ==> basic_wire_type_of(r) == resolved_wire_type(t)
            && scalar_name(t) == type_ref_text(r),
        packed_wire_type_of(r) matches Some(w) ==> w == basic_wire_type_of(r),
        map_key_wire_type_of(r) matches Some(w) ==> w == basic_wire_type_of(r),
        resolved_packed_wire_type(t) matches Some(w) ==> w == resolved_wire_type(t),
        resolved_packed_wire_type(t) is Some <==> (is_scalar(t) && !(t is String || t is Bytes)),
{
}

/// A singular scalar field with number `n` is written after the key `n * 8 + w`, with
/// `w` its wire type from the protobuf table: a `double` field with number `n` after
/// `n * 8 + 1`, a `float` one after `n * 8 + 5`, a `string` one after `n * 8 + 2`.
pub proof fn law_scalar_fields_are_written_after_their_key(root: RootScope, parent: usize, f: FieldV)
    requires
        is_scalar(f.field_type),
    ensures
        ({
            let t = f.field_type;
            let name = json_name_of(f.attributes, f.name);
            let w: int = if t is Double || t is Fixed64 || t is Sfixed64 {
                1
            } else if t is Float || t is Fixed32 || t is Sfixed32 {
                5
            } else if t is String || t is Bytes {
                2
            } else {
                0
            };
            field_encode_text(root, parent, f) == if_block_text(
                present_text(name),
                method_call_text(
                    method_call_text("w"@, "uint32"@, seq![int_text((f.tag as i64) * 8 + w)]),
                    scalar_name(t),
                    seq![message_value_text(name)],
                ),
            )
        }),
{
}

/// Each scalar has the TypeScript type of the protobuf JavaScript runtime: `boolean`,
/// `string`, `Uint8Array` for bytes, the given long type for the 64-bit integers, and
/// `number` for every other numeric type (`double`, `float`, the 32-bit integers).
pub proof fn law_scalar_typescript_types(root: RootScope, t: TypeV, long: TsTypeV)
    requires
        is_scalar(t),
    ensures
        (t is Double || t is Float || t is Int32 || t is Uint32 || t is Sint32 || t is Fixed32 || t is Sfixed32)
            ==> field_ts_type(root, t, long) == Some(TsTypeV::Number),
        (t is Int64 || t is Uint64 || t is Sint64 || t is Sfixed64 || t is Fixed64) ==> field_ts_type(root, t, long) == Some(
            if t is Fixed64 { TsTypeV::Number } else { long },
        ),
        t is Bool ==> field_ts_type(root, t, long) == Some(TsTypeV::Boolean),
        t is String ==> field_ts_type(root, t, long) == Some(TsTypeV::String),
        t is Bytes ==> field_ts_type(root, t, long) == Some(TsTypeV::Reference(seq!["Uint8Array"@])),
{
}

/// The initial value a decoded message gives a field fits the field's TypeScript type:
/// `false` exactly for a `boolean`, `""` exactly for a `string`, an empty array exactly
/// for an array, an empty object exactly for a record, `0` for a number or a long, and
/// an empty `Uint8Array` for bytes.
pub proof fn law_initial_values_fit_the_typescript_types(root: RootScope, t: TypeV, long: TsTypeV)
    requires
        long == long_input() || long == long_result(),
    ensures
        field_ts_type(root, t, long) matches Some(x) ==> {
            &&& (x == TsTypeV::Boolean <==> default_of(t) == DefaultValue::False)
            &&& (x == TsTypeV::String <==> default_of(t) == DefaultValue::EmptyString)
            &&& (x is Array <==> default_of(t) == DefaultValue::EmptyArray)
            &&& (x is Record <==> default_of(t) == DefaultValue::EmptyObject)
            &&& (x == TsTypeV::Number ==> default_of(t) == DefaultValue::Zero)
            &&& (x == long ==> default_of(t) == DefaultValue::Zero)
            &&& (is_scalar(t) && x == TsTypeV::Reference(seq!["Uint8Array"@]) ==> default_of(t) == DefaultValue::NewBytes)
        },
{
    let lr = seq!["util"@, "Long"@];
    assert(lr.len() == 2);
    match t {
        TypeV::Enum(id) => {
            if let Some(n) = declared_name(root, id as usize) {
                assert(seq![n].len() == 1);
                assert(TsTypeV::Reference(seq![n]) != long_result());
            }
        },
        TypeV::Message(id) => {
            if let Some(n) = declared_name(root, id as usize) {
                assert(seq![encode_type_name_of(n)].len() == 1);
                assert(TsTypeV::Reference(seq![encode_type_name_of(n)]) != long_result());
            }
        },
        TypeV::Int64 | TypeV::Sfixed64 | TypeV::Sint64 | TypeV::Uint64 => {
            assert(seq!["Uint8Array"@].len() == 1);
            assert(long != TsTypeV::Reference(seq!["Uint8Array"@]));
        },
        _ => {},
    }
}

/// The initial value of a field of a resolved type is that of the schema type it
/// resolves from, and is written as the schema's default: `false` for `bool`, `0` for
/// the numbers, `""` for `string`.
pub proof fn law_initial_values_agree_with_the_schema(r: TypeRefV, t: TypeV)
    ensures
        trivial_resolution(r) == Some(t) ==> default_of(t) == default_of_ref(r),
        t is Bool ==> default_text(default_of(t)) == "false"@,
        (t is Double || t is Float || t is Int32 || t is Int64 || t is Uint32 || t is Uint64 || t is Sint32 || t is Sint64
            || t is Fixed32 || t is Fixed64 || t is Sfixed32 || t is Sfixed64) ==> default_of(t) == DefaultValue::Zero,
        t is String ==> default_of(t) == DefaultValue::EmptyString,
        t is Bytes ==> default_of(t) == DefaultValue::NewBytes,
        (t is Enum || t is Message) ==> default_of(t) == DefaultValue::Null,
        t is Repeated ==> default_of(t) == DefaultValue::EmptyArray,
        t is MapOf ==> default_of(t) == DefaultValue::EmptyObject,
{
    if trivial_resolution(r) == Some(t) {
        lemma_trivial_resolution_keeps_kind(r, t);
    }
}

proof fn lemma_trivial_resolution_keeps_kind(r: TypeRefV, t: TypeV)
    requires
        trivial_resolution(r) == Some(t),
    ensures
        default_of(t) == default_of_ref(r),
{
}

/// White space is skipped: where the character at `i` is one of Unicode's white space
/// characters (tab, line feed, vertical tab, form feed, carriage return, space, and the
/// others `char::is_whitespace` lists), lexing from `i` gives what lexing from `i + 1`
/// gives.
pub proof fn law_white_space_is_skipped(cs: Seq<LocatedChar>, i: int, file_path: Seq<char>)
    requires
        0 <= i < cs.len(),
        ({
            let c = cs[i].ch;
            ||| c == '\t' || c == '\n' || c == '\u{0b}' || c == '\u{0c}' || c == '\r' || c == ' '
            ||| c == '\u{85}' || c == '\u{a0}' || c == '\u{1680}' || ('\u{2000}' <= c && c <= '\u{200a}')
            ||| c == '\u{2028}' || c == '\u{2029}' || c == '\u{202f}' || c == '\u{205f}' || c == '\u{3000}'
        }),
    ensures
        lex_from(cs, i, file_path) == lex_from(cs, i + 1, file_path),
{
}

/// Only Unicode's white space characters count as white space.
pub proof fn law_white_space_is_unicode_white_space(c: char)
    ensures
        spec_is_whitespace(c) <==> {
            ||| c == '\t' || c == '\n' || c == '\u{0b}' || c == '\u{0c}' || c == '\r' || c == ' '
            ||| c == '\u{85}' || c == '\u{a0}' || c == '\u{1680}' || ('\u{2000}' <= c && c <= '\u{200a}')
            ||| c == '\u{2028}' || c == '\u{2029}' || c == '\u{202f}' || c == '\u{205f}' || c == '\u{3000}'
        },
{
}

/// A package path is read in the order it is written: where `package a1.a2 ... an;`
/// starts at `ind`, the names read after `acc` are the identifiers at `ind`, `ind + 2`,
/// ..., one per name and in that order, separated by dots and ended by a semicolon.
pub proof fn law_package_path_is_read_in_written_order(ls: Seq<LocatedLexemV>, fp: Seq<char>, ind: int, acc: Seq<Seq<char>>)
    ensures
        p_package_path(ls, fp, ind, acc) matches Ok((path, end)) ==> {
            &&& path.len() > acc.len()
            &&& end == ind + 2 * (path.len() - acc.len())
            &&& end <= ls.len()
            &&& path.subrange(0, acc.len() as int) == acc
            &&& forall|k: int| 0 <= k < path.len() - acc.len() ==> (#[trigger] ls[ind + 2 * k]).lexem == LexemV::Id(path[acc.len() + k])
            &&& forall|k: int| 0 <= k < path.len() - acc.len() - 1 ==> (#[trigger] ls[ind + 2 * k + 1]).lexem == LexemV::Dot
            &&& ls[end - 1].lexem == LexemV::SemiColon
        },
    decreases ls.len() - ind,
{
    if 0 <= ind && ind + 1 < ls.len() {
        if let LexemV::Id(s) = ls[ind].lexem {
            if ls[ind + 1].lexem == LexemV::Dot {
                law_package_path_is_read_in_written_order(ls, fp, ind + 2, acc.push(s));
                if let Ok((path, end)) = p_package_path(ls, fp, ind, acc) {
                    let a2 = acc.push(s);
                    assert(path.subrange(0, a2.len() as int) == a2);
                    assert(path.subrange(0, acc.len() as int) =~= a2.subrange(0, acc.len() as int));
                    assert(a2.subrange(0, acc.len() as int) =~= acc);
                    assert forall|k: int| 0 <= k < path.len() - acc.len() implies (#[trigger] ls[ind + 2 * k]).lexem == LexemV::Id(path[acc.len() + k]) by {
                        if k == 0 {
                            assert(path[acc.len() as int] == a2[acc.len() as int]);
                        } else {
                            assert(ls[(ind + 2) + 2 * (k - 1)] == ls[ind + 2 * k]);
                        }
                    }
                    assert forall|k: int| 0 <= k < path.len() - acc.len() - 1 implies (#[trigger] ls[ind + 2 * k + 1]).lexem == LexemV::Dot by {
                        if k > 0 {
                            assert(ls[(ind + 2) + 2 * (k - 1) + 1] == ls[ind + 2 * k + 1]);
                        }
                    }
                }
            }
        }
    }
}

} // verus!
