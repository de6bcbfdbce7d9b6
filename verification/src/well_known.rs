//! The well-known files of the `google.protobuf` package, which schemas import
//! without shipping them: built here rather than read from disk.
use vstd::prelude::*;
use crate::id_generator::IdGenerator;
use crate::package::{
    Declaration, DeclarationV, EnumDeclaration, EnumDeclarationV, EnumEntry, EnumEntryV,
    FieldDeclaration, FieldDeclarationV, FieldTypeReference, ImportPath, ImportPathV,
    MessageDeclaration, MessageDeclarationEntry, MessageDeclarationEntryV, MessageDeclarationV,
    OneOfDeclaration, OneOfDeclarationV, ProtoFile, ProtoFileV, ProtoVersion, TypeRefV,
    attributes_view, entries_view, lemma_entries_view_push,
};
use crate::text::{str_eq, views};

verus! {

/// The names of the well-known files.
pub open spec fn is_well_known_file_name(n: Seq<char>) -> bool {
    ||| n == "any.proto"@
    ||| n == "duration.proto"@
    ||| n == "empty.proto"@
    ||| n == "field_mask.proto"@
    ||| n == "struct.proto"@
    ||| n == "timestamp.proto"@
    ||| n == "wrappers.proto"@
}

/// The package path of the well-known files.
pub open spec fn well_known_packages() -> Seq<Seq<char>> {
    seq!["google"@, "protobuf"@]
}

/// An import of one of the well-known files: `google/protobuf/<file>`.
pub open spec fn is_well_known_import_v(imp: ImportPathV) -> bool {
    imp.packages == well_known_packages() && is_well_known_file_name(imp.file_name)
}

/// The models of a list of declarations.
pub open spec fn decl_views(s: Seq<Declaration>) -> Seq<DeclarationV> {
    s.map_values(|d: Declaration| d@)
}

/// A plain field with no attributes.
pub open spec fn field_v(name: Seq<char>, t: TypeRefV, tag: int) -> FieldDeclarationV {
    FieldDeclarationV { name, field_type_ref: t, tag, attributes: Seq::empty() }
}

/// A message declaration.
pub open spec fn message_v(id: nat, name: Seq<char>, entries: Seq<MessageDeclarationEntryV>) -> DeclarationV {
    DeclarationV::Message(MessageDeclarationV { id, name, entries })
}

/// A reference to the declaration `name`.
pub open spec fn type_id(name: Seq<char>) -> TypeRefV {
    TypeRefV::IdPath(seq![name])
}

/// A message of a seconds field and a nanoseconds field.
pub open spec fn time_type_v(id: nat, name: Seq<char>) -> MessageDeclarationV {
    MessageDeclarationV {
        id,
        name,
        entries: seq![
            MessageDeclarationEntryV::Field(field_v("seconds"@, TypeRefV::Int64, 1)),
            MessageDeclarationEntryV::Field(field_v("nanos"@, TypeRefV::Int32, 2)),
        ],
    }
}

/// A wrapper message: one field `value` of type `t`.
pub open spec fn wrapper_v(id: nat, name: Seq<char>, t: TypeRefV) -> DeclarationV {
    message_v(id, name, seq![MessageDeclarationEntryV::Field(field_v("value"@, t, 1))])
}

/// The declarations of the well-known file `file`, whose ids follow `last`.
pub open spec fn well_known_declarations(file: Seq<char>, last: nat) -> Seq<DeclarationV> {
    if file == "any.proto"@ {
        seq![
            message_v(
                last + 1,
                "Any"@,
                seq![
                    MessageDeclarationEntryV::Field(field_v("type_url"@, TypeRefV::String, 1)),
                    MessageDeclarationEntryV::Field(field_v("value"@, TypeRefV::Bytes, 2)),
                ],
            ),
        ]
    } else if file == "timestamp.proto"@ {
        seq![DeclarationV::Message(time_type_v(last + 1, "Timestamp"@))]
    } else if file == "empty.proto"@ {
        seq![message_v(last + 1, "Empty"@, Seq::empty())]
    } else if file == "duration.proto"@ {
        seq![DeclarationV::Message(time_type_v(last + 1, "Duration"@))]
    } else if file == "wrappers.proto"@ {
        seq![
            wrapper_v(last + 1, "DoubleValue"@, TypeRefV::Double),
            wrapper_v(last + 2, "FloatValue"@, TypeRefV::Float),
            wrapper_v(last + 3, "Int64"@, TypeRefV::Int64),
            wrapper_v(last + 4, "UInt64"@, TypeRefV::Uint64),
            wrapper_v(last + 5, "Int32Value"@, TypeRefV::Int32),
            wrapper_v(last + 6, "UInt32Value"@, TypeRefV::Uint32),
            wrapper_v(last + 7, "BoolValue"@, TypeRefV::Bool),
            wrapper_v(last + 8, "StringValue"@, TypeRefV::String),
            wrapper_v(last + 9, "BytesValue"@, TypeRefV::Bytes),
        ]
    } else if file == "field_mask.proto"@ {
        seq![
            message_v(
                last + 1,
                "FieldMask"@,
                seq![
                    MessageDeclarationEntryV::Field(
                        field_v("paths"@, TypeRefV::Repeated(Box::new(TypeRefV::String)), 1),
                    ),
                ],
            ),
        ]
    } else {
        seq![
            DeclarationV::Enum(
                EnumDeclarationV {
                    id: last + 1,
                    name: "NullValue"@,
                    entries: seq![EnumEntryV { name: "NULL_VALUE"@, value: 0 }],
                },
            ),
            message_v(
                last + 2,
                "Struct"@,
                seq![
                    MessageDeclarationEntryV::Field(
                        field_v(
                            "fields"@,
                            TypeRefV::MapOf(Box::new(TypeRefV::String), Box::new(type_id("Value"@))),
                            1,
                        ),
                    ),
                ],
            ),
            message_v(
                last + 3,
                "Value"@,
                seq![
                    MessageDeclarationEntryV::OneOf(
                        OneOfDeclarationV {
                            name: "kind"@,
                            options: seq![
                                field_v("null_value"@, type_id("NullValue"@), 1),
                                field_v("number_value"@, TypeRefV::Double, 2),
                                field_v("string_value"@, TypeRefV::String, 3),
                                field_v("bool_value"@, TypeRefV::Bool, 4),
                                field_v("struct_value"@, type_id("Struct"@), 5),
                                field_v("list_value"@, type_id("ListValue"@), 6),
                            ],
                        },
                    ),
                ],
            ),
            message_v(
                last + 4,
                "ListValue"@,
                seq![
                    MessageDeclarationEntryV::Field(
                        field_v("values"@, TypeRefV::Repeated(Box::new(type_id("Value"@))), 1),
                    ),
                ],
            ),
        ]
    }
}

/// The well-known file `file` as a parsed file of package `google.protobuf`.
pub open spec fn well_known_file_v(file: Seq<char>, last: nat) -> ProtoFileV {
    ProtoFileV {
        version: ProtoVersion::Proto3,
        declarations: well_known_declarations(file, last),
        imports: Seq::empty(),
        path: well_known_packages(),
        name: file,
    }
}

/// The names of the well-known files differ from one another.
proof fn lemma_file_names_differ()
    ensures
        "any.proto"@.len() == 9,
        "duration.proto"@.len() == 14,
        "duration.proto"@[0] == 'd',
        "empty.proto"@.len() == 11,
        "field_mask.proto"@.len() == 16,
        "struct.proto"@.len() == 12,
        "timestamp.proto"@.len() == 15,
        "wrappers.proto"@.len() == 14,
        "wrappers.proto"@[0] == 'w',
{
    reveal_strlit("any.proto");
    reveal_strlit("duration.proto");
    reveal_strlit("empty.proto");
    reveal_strlit("field_mask.proto");
    reveal_strlit("struct.proto");
    reveal_strlit("timestamp.proto");
    reveal_strlit("wrappers.proto");
}

/// Whether the import names one of the well-known files.
pub fn is_well_known_import(imp: &ImportPath) -> (r: bool)
    ensures
        r == is_well_known_import_v(imp@),
{
    assert(views(imp.packages@).len() == imp.packages@.len());
    assert(well_known_packages().len() == 2);
    if imp.packages.len() != 2 {
        return false;
    }
    assert(views(imp.packages@)[0] == imp.packages@[0]@);
    assert(views(imp.packages@)[1] == imp.packages@[1]@);
    if !str_eq(imp.packages[0].as_str(), "google") {
        return false;
    }
    if !str_eq(imp.packages[1].as_str(), "protobuf") {
        return false;
    }
    assert(views(imp.packages@) =~= well_known_packages());
    is_valid_well_known_import_file_name(imp.file_name.as_str())
}

/// Whether `name` is the name of a well-known file.
pub fn is_valid_well_known_import_file_name(name: &str) -> (r: bool)
    ensures
        r == is_well_known_file_name(name@),
{
    str_eq(name, "any.proto") || str_eq(name, "duration.proto") || str_eq(name, "empty.proto")
        || str_eq(name, "field_mask.proto") || str_eq(name, "struct.proto")
        || str_eq(name, "timestamp.proto") || str_eq(name, "wrappers.proto")
}

fn type_reference(name: &str) -> (r: FieldTypeReference)
    ensures
        r@ == type_id(name@),
{
    let mut ids: Vec<String> = Vec::new();
    ids.push(name.to_string());
    assert(views(ids@) =~= seq![name@]);
    FieldTypeReference::IdPath(ids)
}

fn field(name: &str, t: FieldTypeReference, tag: i64) -> (r: FieldDeclaration)
    ensures
        r@ == field_v(name@, t@, tag as int),
{
    let attributes: Vec<(String, String)> = Vec::new();
    assert(attributes_view(attributes@) =~= Seq::empty());
    FieldDeclaration { name: name.to_string(), field_type_ref: t, tag, attributes }
}

fn field_entry(name: &str, t: FieldTypeReference, tag: i64) -> (r: MessageDeclarationEntry)
    ensures
        r@ == MessageDeclarationEntryV::Field(field_v(name@, t@, tag as int)),
{
    MessageDeclarationEntry::Field(field(name, t, tag))
}

fn one_entry(e: MessageDeclarationEntry) -> (r: Vec<MessageDeclarationEntry>)
    ensures
        entries_view(r@) == seq![e@],
{
    let mut v: Vec<MessageDeclarationEntry> = Vec::new();
    let ghost empty = v@;
    v.push(e);
    proof {
        lemma_entries_view_push(empty, e);
        assert(entries_view(empty) =~= Seq::empty());
        assert(entries_view(v@) =~= seq![e@]);
    }
    v
}

fn two_entries(a: MessageDeclarationEntry, b: MessageDeclarationEntry) -> (r: Vec<MessageDeclarationEntry>)
    ensures
        entries_view(r@) == seq![a@, b@],
{
    let mut v = one_entry(a);
    let ghost before = v@;
    v.push(b);
    proof {
        lemma_entries_view_push(before, b);
        assert(entries_view(v@) =~= seq![a@, b@]);
    }
    v
}

fn new_message(
    ids: &mut IdGenerator,
    name: &str,
    entries: Vec<MessageDeclarationEntry>,
) -> (r: MessageDeclaration)
    requires
        old(ids)@ < usize::MAX,
    ensures
        r@.id == final(ids)@,
        r@.name == name@,
        r@.entries == entries_view(entries@),
        final(ids)@ == old(ids)@ + 1,
{
    let id = ids.next_id();
    MessageDeclaration { id, name: name.to_string(), entries }
}

/// A message of a seconds field (`int64`, tag 1) and a nanoseconds field (`int32`,
/// tag 2), with the next id.
pub fn create_time_type(ids: &mut IdGenerator, name: &str) -> (r: MessageDeclaration)
    requires
        old(ids)@ < usize::MAX,
    ensures
        final(ids)@ == old(ids)@ + 1,
        r@ == time_type_v(final(ids)@, name@),
{
    let entries = two_entries(
        field_entry("seconds", FieldTypeReference::Int64, 1),
        field_entry("nanos", FieldTypeReference::Int32, 2),
    );
    new_message(ids, name, entries)
}

fn make_wrapper(ids: &mut IdGenerator, wrapper_name: &str, field_type: FieldTypeReference) -> (r: Declaration)
    requires
        old(ids)@ < usize::MAX,
    ensures
        final(ids)@ == old(ids)@ + 1,
        r@ == wrapper_v(final(ids)@, wrapper_name@, field_type@),
{
    let entries = one_entry(field_entry("value", field_type, 1));
    Declaration::Message(new_message(ids, wrapper_name, entries))
}

fn create_wrappers_messages(ids: &mut IdGenerator) -> (r: Vec<Declaration>)
    requires
        old(ids)@ + 9 < usize::MAX,
    ensures
        final(ids)@ == old(ids)@ + 9,
        decl_views(r@) == well_known_declarations("wrappers.proto"@, old(ids)@),
{
    let ghost last = ids@;
    let mut v: Vec<Declaration> = Vec::new();
    v.push(make_wrapper(ids, "DoubleValue", FieldTypeReference::Double));
    v.push(make_wrapper(ids, "FloatValue", FieldTypeReference::Float));
    v.push(make_wrapper(ids, "Int64", FieldTypeReference::Int64));
    v.push(make_wrapper(ids, "UInt64", FieldTypeReference::Uint64));
    v.push(make_wrapper(ids, "Int32Value", FieldTypeReference::Int32));
    v.push(make_wrapper(ids, "UInt32Value", FieldTypeReference::Uint32));
    v.push(make_wrapper(ids, "BoolValue", FieldTypeReference::Bool));
    v.push(make_wrapper(ids, "StringValue", FieldTypeReference::String));
    v.push(make_wrapper(ids, "BytesValue", FieldTypeReference::Bytes));
    proof {
        lemma_file_names_differ();
        assert(decl_views(v@) =~= well_known_declarations("wrappers.proto"@, last));
    }
    v
}

fn create_struct_declarations(ids: &mut IdGenerator) -> (r: Vec<Declaration>)
    requires
        old(ids)@ + 4 < usize::MAX,
    ensures
        final(ids)@ == old(ids)@ + 4,
        decl_views(r@) == well_known_declarations("struct.proto"@, old(ids)@),
{
    let ghost last = ids@;
    let mut v: Vec<Declaration> = Vec::new();
    let mut null_entries: Vec<EnumEntry> = Vec::new();
    null_entries.push(EnumEntry { name: "NULL_VALUE".to_string(), value: 0 });
    let null_id = ids.next_id();
    let null_value = EnumDeclaration { id: null_id, name: "NullValue".to_string(), entries: null_entries };
    assert(null_value@.entries =~= seq![EnumEntryV { name: "NULL_VALUE"@, value: 0 }]);
    v.push(Declaration::Enum(null_value));

    let map_type = FieldTypeReference::MapOf(
        Box::new(FieldTypeReference::String),
        Box::new(type_reference("Value")),
    );
    let struct_entries = one_entry(field_entry("fields", map_type, 1));
    v.push(Declaration::Message(new_message(ids, "Struct", struct_entries)));

    let mut options: Vec<FieldDeclaration> = Vec::new();
    options.push(field("null_value", type_reference("NullValue"), 1));
    options.push(field("number_value", FieldTypeReference::Double, 2));
    options.push(field("string_value", FieldTypeReference::String, 3));
    options.push(field("bool_value", FieldTypeReference::Bool, 4));
    options.push(field("struct_value", type_reference("Struct"), 5));
    options.push(field("list_value", type_reference("ListValue"), 6));
    let kind = OneOfDeclaration { name: "kind".to_string(), options };
    assert(kind@.options =~= seq![
        field_v("null_value"@, type_id("NullValue"@), 1),
        field_v("number_value"@, TypeRefV::Double, 2),
        field_v("string_value"@, TypeRefV::String, 3),
        field_v("bool_value"@, TypeRefV::Bool, 4),
        field_v("struct_value"@, type_id("Struct"@), 5),
        field_v("list_value"@, type_id("ListValue"@), 6),
    ]);
    let value_entries = one_entry(MessageDeclarationEntry::OneOf(kind));
    v.push(Declaration::Message(new_message(ids, "Value", value_entries)));

    let values_type = FieldTypeReference::Repeated(Box::new(type_reference("Value")));
    let list_entries = one_entry(field_entry("values", values_type, 1));
    v.push(Declaration::Message(new_message(ids, "ListValue", list_entries)));
    proof {
        lemma_file_names_differ();
        assert(decl_views(v@) =~= well_known_declarations("struct.proto"@, last));
    }
    v
}

fn single_declaration(d: Declaration) -> (r: Vec<Declaration>)
    ensures
        decl_views(r@) == seq![d@],
{
    let mut v: Vec<Declaration> = Vec::new();
    v.push(d);
    assert(decl_views(v@) =~= seq![d@]);
    v
}

/// The declarations of the well-known file `file_name`, with fresh ids.
fn well_known_file_declarations(ids: &mut IdGenerator, file_name: &str) -> (r: Vec<Declaration>)
    requires
        is_well_known_file_name(file_name@),
        old(ids)@ + 9 < usize::MAX,
    ensures
        decl_views(r@) == well_known_declarations(file_name@, old(ids)@),
        final(ids)@ == old(ids)@ + well_known_declarations(file_name@, old(ids)@).len(),
{
    let ghost last = ids@;
    let r = if str_eq(file_name, "any.proto") {
        let entries = two_entries(
            field_entry("type_url", FieldTypeReference::String, 1),
            field_entry("value", FieldTypeReference::Bytes, 2),
        );
        single_declaration(Declaration::Message(new_message(ids, "Any", entries)))
    } else if str_eq(file_name, "timestamp.proto") {
        single_declaration(Declaration::Message(create_time_type(ids, "Timestamp")))
    } else if str_eq(file_name, "empty.proto") {
        let entries: Vec<MessageDeclarationEntry> = Vec::new();
        assert(entries_view(entries@) =~= Seq::empty());
        single_declaration(Declaration::Message(new_message(ids, "Empty", entries)))
    } else if str_eq(file_name, "duration.proto") {
        single_declaration(Declaration::Message(create_time_type(ids, "Duration")))
    } else if str_eq(file_name, "wrappers.proto") {
        create_wrappers_messages(ids)
    } else if str_eq(file_name, "field_mask.proto") {
        let paths = FieldTypeReference::Repeated(Box::new(FieldTypeReference::String));
        assert(FieldTypeReference::String@ == TypeRefV::String);
        let entries = one_entry(field_entry("paths", paths, 1));
        single_declaration(Declaration::Message(new_message(ids, "FieldMask", entries)))
    } else {
        proof {
            lemma_file_names_differ();
        }
        create_struct_declarations(ids)
    };
    assert(decl_views(r@) =~= well_known_declarations(file_name@, last));
    r
}

/// The well-known file `file_name` of package `google.protobuf`, its declarations
/// numbered from the next id on.
pub fn create_well_known_file(ids: &mut IdGenerator, file_name: &str) -> (r: ProtoFile)
    requires
        is_well_known_file_name(file_name@),
        old(ids)@ + 9 < usize::MAX,
    ensures
        r@ == well_known_file_v(file_name@, old(ids)@),
        final(ids)@ == old(ids)@ + well_known_declarations(file_name@, old(ids)@).len(),
{
    let declarations = well_known_file_declarations(ids, file_name);
    let imports: Vec<ImportPath> = Vec::new();
    let mut path: Vec<String> = Vec::new();
    path.push("google".to_string());
    path.push("protobuf".to_string());
    let r = ProtoFile {
        version: ProtoVersion::Proto3,
        declarations,
        imports,
        path,
        name: file_name.to_string(),
    };
    assert(views(r.path@) =~= well_known_packages());
    assert(r@.declarations =~= decl_views(r.declarations@));
    assert(r.imports@.map_values(|i: ImportPath| i@) =~= Seq::<ImportPathV>::empty());
    r
}

} // verus!
