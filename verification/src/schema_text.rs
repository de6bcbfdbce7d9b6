//! Parsed schemas written back as schema text.
use vstd::prelude::*;
use crate::compiler::render::{indent_text, push_indented};
use crate::error::version_text;
use crate::package::{
    Declaration, DeclarationV, EnumDeclaration, EnumDeclarationV, EnumEntryV,
    FieldDeclaration, FieldDeclarationV, FieldTypeReference, ImportPathV,
    MessageDeclarationEntry, MessageDeclarationEntryV, OneOfDeclaration, OneOfDeclarationV, ProtoFile, ProtoFileV, ProtoVersion, attributes_view, entries_view, type_ref_text,
};
use crate::text::{int_text, join, push_int, push_joined};

verus! {

/// `name = "value"`.
pub open spec fn attribute_text(a: (Seq<char>, Seq<char>)) -> Seq<char> {
    a.0 + " = \""@ + a.1 + "\""@
}

/// The attributes joined with `, `.
pub open spec fn attribute_list_text(attrs: Seq<(Seq<char>, Seq<char>)>) -> Seq<char>
    decreases attrs.len(),
{
    if attrs.len() == 0 {
        Seq::empty()
    } else if attrs.len() == 1 {
        attribute_text(attrs[0])
    } else {
        attribute_list_text(attrs.drop_last()) + ", "@ + attribute_text(attrs.last())
    }
}

/// A field: `<type> <name> = <tag>`, then its attributes in brackets where it has any.
pub open spec fn field_text(f: FieldDeclarationV) -> Seq<char> {
    type_ref_text(f.field_type_ref) + " "@ + f.name + " = "@ + int_text(f.tag) + if f.attributes.len() == 0 {
        Seq::empty()
    } else {
        " ["@ + attribute_list_text(f.attributes) + "]"@
    }
}

/// The options of a `oneof`, each on a line of its own.
pub open spec fn options_text(options: Seq<FieldDeclarationV>) -> Seq<char>
    decreases options.len(),
{
    if options.len() == 0 {
        Seq::empty()
    } else {
        options_text(options.drop_last()) + "  "@ + field_text(options.last()) + ";\n"@
    }
}

/// A `oneof` group.
pub open spec fn oneof_text(o: OneOfDeclarationV) -> Seq<char> {
    "oneof "@ + o.name + " {\n"@ + options_text(o.options) + "}\n"@
}

/// An enum value: `<name> = <value>;`.
pub open spec fn enum_entry_text(e: EnumEntryV) -> Seq<char> {
    e.name + " = "@ + int_text(e.value) + ";"@
}

/// The values of an enum, each indented on a line of its own.
pub open spec fn enum_entries_text(entries: Seq<EnumEntryV>) -> Seq<char>
    decreases entries.len(),
{
    if entries.len() == 0 {
        Seq::empty()
    } else {
        enum_entries_text(entries.drop_last()) + indent_text(enum_entry_text(entries.last()))
    }
}

/// An enum declaration.
pub open spec fn enum_text(e: EnumDeclarationV) -> Seq<char> {
    "enum "@ + e.name + " {\n"@ + enum_entries_text(e.entries) + "}\n"@
}

/// A declaration: an enum, or a message whose entries are indented line by line (a
/// field as `<field>;`, a nested declaration or a `oneof` after an empty line).
pub open spec fn declaration_text(d: DeclarationV) -> Seq<char>
    decreases d, 0nat,
{
    match d {
        DeclarationV::Enum(e) => enum_text(e),
        DeclarationV::Message(m) => "message "@ + m.name + " {\n"@
            + message_entries_text(m.entries, m.entries.len()) + "}\n"@,
    }
}

/// The first `k` entries of a message, each indented line by line.
pub open spec fn message_entries_text(entries: Seq<MessageDeclarationEntryV>, k: nat) -> Seq<char>
    decreases entries, k,
{
    if k == 0 || k > entries.len() {
        Seq::empty()
    } else {
        message_entries_text(entries, (k - 1) as nat) + indent_text(
            match entries[k - 1] {
                MessageDeclarationEntryV::Field(f) => field_text(f) + ";"@,
                MessageDeclarationEntryV::Declaration(d) => "\n"@ + declaration_text(d),
                MessageDeclarationEntryV::OneOf(o) => "\n"@ + oneof_text(o),
            },
        )
    }
}

/// The import lines of a file.
pub open spec fn imports_text(imports: Seq<ImportPathV>) -> Seq<char>
    decreases imports.len(),
{
    if imports.len() == 0 {
        Seq::empty()
    } else {
        imports_text(imports.drop_last()) + "import \""@ + join(imports.last().packages, "/"@) + "/"@
            + imports.last().file_name + "\";\n"@
    }
}

/// The declarations of a file, each after an empty line and followed by one.
pub open spec fn declarations_text(declarations: Seq<DeclarationV>) -> Seq<char>
    decreases declarations.len(),
{
    if declarations.len() == 0 {
        Seq::empty()
    } else {
        declarations_text(declarations.drop_last()) + "\n"@ + declaration_text(declarations.last()) + "\n"@
    }
}

/// A whole file: its syntax line, its imports, its package, its declarations.
pub open spec fn proto_file_text(f: ProtoFileV) -> Seq<char> {
    "syntax = \""@ + version_text(f.version) + "\";\n"@
        + (if f.imports.len() == 0 { Seq::empty() } else { "\n"@ + imports_text(f.imports) })
        + (if f.path.len() == 0 { Seq::empty() } else { "\npackage "@ + join(f.path, "."@) + ";\n"@ })
        + declarations_text(f.declarations)
}

/// The model of each entry is the model of the entry at that place.
pub proof fn lemma_entries_view_index(s: Seq<MessageDeclarationEntry>)
    ensures
        entries_view(s).len() == s.len(),
        forall|i: int| 0 <= i < s.len() ==> #[trigger] entries_view(s)[i] == s[i]@,
    decreases s.len(),
{
    if s.len() > 0 {
        lemma_entries_view_index(s.subrange(0, s.len() - 1));
        assert forall|i: int| 0 <= i < s.len() implies #[trigger] entries_view(s)[i] == s[i]@ by {
            if i < s.len() - 1 {
                assert(s.subrange(0, s.len() - 1)[i] == s[i]);
            }
        }
    }
}

fn push_str(out: &mut String, s: &str)
    ensures
        final(out)@ == old(out)@ + s@,
{
    out.append(s);
}

/// Appends the schema spelling of a type reference.
pub fn push_type_ref(out: &mut String, t: &FieldTypeReference)
    ensures
        final(out)@ == old(out)@ + type_ref_text(t@),
    decreases t,
{
    match t {
        FieldTypeReference::IdPath(ids) => push_joined(out, ids, "."),
        FieldTypeReference::Repeated(e) => {
            push_str(out, "repeated ");
            push_type_ref(out, e);
        },
        FieldTypeReference::MapOf(k, v) => {
            push_str(out, "map<");
            push_type_ref(out, k);
            push_str(out, ", ");
            push_type_ref(out, v);
            push_str(out, ">");
        },
        FieldTypeReference::Bool => push_str(out, "bool"),
        FieldTypeReference::Bytes => push_str(out, "bytes"),
        FieldTypeReference::Double => push_str(out, "double"),
        FieldTypeReference::Fixed32 => push_str(out, "fixed32"),
        FieldTypeReference::Fixed64 => push_str(out, "fixed64"),
        FieldTypeReference::Float => push_str(out, "float"),
        FieldTypeReference::Int32 => push_str(out, "int32"),
        FieldTypeReference::Int64 => push_str(out, "int64"),
        FieldTypeReference::Sfixed32 => push_str(out, "sfixed32"),
        FieldTypeReference::Sfixed64 => push_str(out, "sfixed64"),
        FieldTypeReference::Sint32 => push_str(out, "sint32"),
        FieldTypeReference::Sint64 => push_str(out, "sint64"),
        FieldTypeReference::String => push_str(out, "string"),
        FieldTypeReference::Uint32 => push_str(out, "uint32"),
        FieldTypeReference::Uint64 => push_str(out, "uint64"),
    }
}

/// Appends a field as the schema writes it.
pub fn push_field(out: &mut String, f: &FieldDeclaration)
    ensures
        final(out)@ == old(out)@ + field_text(f@),
{
    let ghost start = out@;
    push_type_ref(out, &f.field_type_ref);
    push_str(out, " ");
    push_str(out, f.name.as_str());
    push_str(out, " = ");
    push_int(out, f.tag);
    let ghost attrs = attributes_view(f.attributes@);
    if f.attributes.len() > 0 {
        push_str(out, " [");
        let ghost head = out@;
        let mut i: usize = 0;
        while i < f.attributes.len()
            invariant
                i <= f.attributes@.len(),
                attrs == attributes_view(f.attributes@),
                out@ == head + attribute_list_text(attrs.take(i as int)),
            decreases f.attributes@.len() - i,
        {
            if i > 0 {
                push_str(out, ", ");
            }
            push_str(out, f.attributes[i].0.as_str());
            push_str(out, " = \"");
            push_str(out, f.attributes[i].1.as_str());
            push_str(out, "\"");
            assert(attrs[i as int] == (f.attributes@[i as int].0@, f.attributes@[i as int].1@));
            assert(attrs.take(i + 1).drop_last() =~= attrs.take(i as int));
            assert(out@ =~= head + attribute_list_text(attrs.take(i + 1)));
            i = i + 1;
        }
        assert(attrs.take(i as int) =~= attrs);
        push_str(out, "]");
    }
    assert(out@ =~= start + field_text(f@));
}

/// Appends a `oneof` group as the schema writes it.
pub fn push_oneof(out: &mut String, o: &OneOfDeclaration)
    ensures
        final(out)@ == old(out)@ + oneof_text(o@),
{
    let ghost start = out@;
    let ghost options = o@.options;
    push_str(out, "oneof ");
    push_str(out, o.name.as_str());
    push_str(out, " {\n");
    let ghost head = out@;
    let mut i: usize = 0;
    while i < o.options.len()
        invariant
            i <= o.options@.len(),
            options == o@.options,
            out@ == head + options_text(options.take(i as int)),
        decreases o.options@.len() - i,
    {
        push_str(out, "  ");
        push_field(out, &o.options[i]);
        push_str(out, ";\n");
        assert(options.take(i + 1).drop_last() =~= options.take(i as int));
        assert(out@ =~= head + options_text(options.take(i + 1)));
        i = i + 1;
    }
    assert(options.take(i as int) =~= options);
    push_str(out, "}\n");
    assert(out@ =~= start + oneof_text(o@));
}

/// Appends an enum declaration as the schema writes it.
pub fn push_enum(out: &mut String, e: &EnumDeclaration)
    ensures
        final(out)@ == old(out)@ + enum_text(e@),
{
    let ghost start = out@;
    let ghost entries = e@.entries;
    push_str(out, "enum ");
    push_str(out, e.name.as_str());
    push_str(out, " {\n");
    let ghost head = out@;
    let mut i: usize = 0;
    while i < e.entries.len()
        invariant
            i <= e.entries@.len(),
            entries == e@.entries,
            out@ == head + enum_entries_text(entries.take(i as int)),
        decreases e.entries@.len() - i,
    {
        let mut line = String::new();
        push_str(&mut line, e.entries[i].name.as_str());
        push_str(&mut line, " = ");
        push_int(&mut line, e.entries[i].value);
        push_str(&mut line, ";");
        assert(line@ =~= enum_entry_text(entries[i as int]));
        push_indented(out, &line);
        assert(entries.take(i + 1).drop_last() =~= entries.take(i as int));
        assert(out@ =~= head + enum_entries_text(entries.take(i + 1)));
        i = i + 1;
    }
    assert(entries.take(i as int) =~= entries);
    push_str(out, "}\n");
    assert(out@ =~= start + enum_text(e@));
}

/// Appends a declaration as the schema writes it (see `declaration_text`).
pub fn push_declaration(out: &mut String, d: &Declaration)
    ensures
        final(out)@ == old(out)@ + declaration_text(d@),
    decreases d,
{
    match d {
        Declaration::Enum(e) => push_enum(out, e),
        Declaration::Message(m) => {
            let ghost start = out@;
            let ghost entries = entries_view(m.entries@);
            proof {
                lemma_entries_view_index(m.entries@);
            }
            push_str(out, "message ");
            push_str(out, m.name.as_str());
            push_str(out, " {\n");
            let ghost head = out@;
            let mut i: usize = 0;
            while i < m.entries.len()
                invariant
                    i <= m.entries@.len(),
                    *d == Declaration::Message(*m),
                    entries == entries_view(m.entries@),
                    entries.len() == m.entries@.len(),
                    forall|j: int| 0 <= j < m.entries@.len() ==> #[trigger] entries[j] == m.entries@[j]@,
                    out@ == head + message_entries_text(entries, i as nat),
                decreases m.entries@.len() - i,
            {
                let mut piece = String::new();
                match &m.entries[i] {
                    MessageDeclarationEntry::Field(f) => {
                        push_field(&mut piece, f);
                        push_str(&mut piece, ";");
                    },
                    MessageDeclarationEntry::Declaration(inner) => {
                        assert(decreases_to!(*d => (*d)->Message_0));
                        assert((*d)->Message_0 == *m);
                        assert(decreases_to!(*m => m.entries));
                        assert(decreases_to!(m.entries => m.entries@));
                        assert(decreases_to!(m.entries@ => m.entries@[i as int]));
                        push_str(&mut piece, "\n");
                        push_declaration(&mut piece, inner);
                    },
                    MessageDeclarationEntry::OneOf(o) => {
                        push_str(&mut piece, "\n");
                        push_oneof(&mut piece, o);
                    },
                }
                push_indented(out, &piece);
                assert(entries[i as int] == m.entries@[i as int]@);
                assert(out@ =~= head + message_entries_text(entries, (i + 1) as nat));
                i = i + 1;
            }
            push_str(out, "}\n");
            assert(out@ =~= start + declaration_text(d@));
        },
    }
}

/// The file written back as schema text (see `proto_file_text`).
pub fn proto_file_to_text(f: &ProtoFile) -> (r: String)
    ensures
        r@ == proto_file_text(f@),
{
    let mut out = String::new();
    push_str(&mut out, "syntax = \"");
    match f.version {
        ProtoVersion::Proto2 => push_str(&mut out, "proto2"),
        ProtoVersion::Proto3 => push_str(&mut out, "proto3"),
    }
    push_str(&mut out, "\";\n");
    let ghost after_syntax = out@;
    let ghost imports = f@.imports;
    if f.imports.len() > 0 {
        push_str(&mut out, "\n");
        let ghost head = out@;
        let mut i: usize = 0;
        while i < f.imports.len()
            invariant
                i <= f.imports@.len(),
                imports == f@.imports,
                out@ == head + imports_text(imports.take(i as int)),
            decreases f.imports@.len() - i,
        {
            push_str(&mut out, "import \"");
            push_joined(&mut out, &f.imports[i].packages, "/");
            push_str(&mut out, "/");
            push_str(&mut out, f.imports[i].file_name.as_str());
            push_str(&mut out, "\";\n");
            assert(imports[i as int] == f.imports@[i as int]@);
            assert(imports.take(i + 1).drop_last() =~= imports.take(i as int));
            assert(out@ =~= head + imports_text(imports.take(i + 1)));
            i = i + 1;
        }
        assert(imports.take(i as int) =~= imports);
    }
    let ghost after_imports = out@;
    if f.path.len() > 0 {
        push_str(&mut out, "\npackage ");
        push_joined(&mut out, &f.path, ".");
        push_str(&mut out, ";\n");
    }
    let ghost head = out@;
    let ghost decls = f@.declarations;
    let mut j: usize = 0;
    while j < f.declarations.len()
        invariant
            j <= f.declarations@.len(),
            decls == f@.declarations,
            out@ == head + declarations_text(decls.take(j as int)),
        decreases f.declarations@.len() - j,
    {
        push_str(&mut out, "\n");
        push_declaration(&mut out, &f.declarations[j]);
        push_str(&mut out, "\n");
        assert(decls[j as int] == f.declarations@[j as int]@);
        assert(decls.take(j + 1).drop_last() =~= decls.take(j as int));
        assert(out@ =~= head + declarations_text(decls.take(j + 1)));
        j = j + 1;
    }
    assert(decls.take(j as int) =~= decls);
    assert(out@ =~= proto_file_text(f@));
    out
}

} // verus!
