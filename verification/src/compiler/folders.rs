//! The folders of the generated tree: one per package, file and message, one module
//! per enum.
use vstd::prelude::*;
use crate::compiler::ast::{EnumDeclaration, EnumMember, EnumValue, File, Folder, FolderEntry, Identifier, Modifier, NumericLiteral, Statement};
use crate::compiler::decode_compiler::{decode_module, compile_decode, decodable, decode_succeeds};
use crate::compiler::encode_compiler::{encode_module, compile_encode, encodable_type, encode_succeeds, tag_in_range};
use crate::compiler::ts_path::{file_name_to_folder_name, folder_name_of};
use crate::compiler::types_compiler::{types_module, fields_importable, has_one_of, insert_message_types};
use crate::error::ProtoError;
use crate::proto_scope::{message_fields_of, EnumScope, FileScope, MessageScope, PackageScope, ProtoScope, RootScope};
use crate::text::int_text;

verus! {

/// Whether `m` is the member of an enum for the entry `name = value`.
pub open spec fn enum_member_of(m: EnumMember, name: Seq<char>, value: int) -> bool {
    &&& m.name.text@ == name
    &&& m.value matches Some(EnumValue::Number(n))
    &&& n.text@ == int_text(value)
}

/// Whether `f` is the module of enum `e`: named after it, holding the exported enum
/// with a member per entry, by its name and value.
pub open spec fn enum_module(e: EnumScope, f: File) -> bool {
    &&& f.name@ == e.name@
    &&& f.statements@.len() == 1
    &&& f.statements@[0] matches Statement::EnumDeclaration(d) && d.modifiers@ == seq![Modifier::Export]
        && d.name.text@ == e.name@ && d.members@.len() == e.entries@.len()
        && forall|k: int| 0 <= k < d.members@.len() ==> enum_member_of(#[trigger] d.members@[k], e.entries@[k].name@, e.entries@[k].value as int)
}

/// Adds to `res` the module of an enum: a file named as the enum that exports it,
/// with one member per entry, each with its number.
pub fn insert_enum_declaration(root: &RootScope, res: &mut Folder, enum_scope: &EnumScope)
    ensures
        final(res).name == old(res).name,
        final(res).entries@.len() == old(res).entries@.len() + 1,
        final(res).entries@.subrange(0, old(res).entries@.len() as int) == old(res).entries@,
        final(res).entries@.last() matches FolderEntry::File(file) && enum_module(*enum_scope, *file),
        generated_entry(*root, final(res).entries@.last(), ProtoScope::Enum(*enum_scope)),
{
    let mut file = File::new(enum_scope.name.clone());
    let mut members: Vec<EnumMember> = Vec::new();
    let mut k: usize = 0;
    while k < enum_scope.entries.len()
        invariant
            k <= enum_scope.entries@.len(),
            members@.len() == k,
            forall|q: int| 0 <= q < k ==> enum_member_of(#[trigger] members@[q], enum_scope.entries@[q].name@, enum_scope.entries@[q].value as int),
        decreases enum_scope.entries@.len() - k,
    {
        let entry = &enum_scope.entries[k];
        members.push(EnumMember {
            name: Identifier::new(entry.name.as_str()),
            value: Some(EnumValue::Number(NumericLiteral::from_int(entry.value))),
        });
        k = k + 1;
    }
    let mut modifiers: Vec<Modifier> = Vec::new();
    modifiers.push(Modifier::Export);
    let declaration = EnumDeclaration { modifiers, name: Identifier::new(enum_scope.name.as_str()), members };
    file.push_statement(Statement::EnumDeclaration(Box::new(declaration)));
    res.push_file(file);
    assert(res.entries@.subrange(0, old(res).entries@.len() as int) =~= old(res).entries@);
}

/// What is generated for a scope: for an enum, a module named after it; for a message,
/// a folder named after it that holds its modules `types`, `encode` and `decode` (see
/// `types_module`, `encode_module`, `decode_module`), then what is generated for each
/// nested declaration, in order; for a file, a folder named
/// as the file without `.proto`, and for a package a folder named after it, each holding
/// what is generated for each scope in it, in order.
pub open spec fn generated_entry(root: RootScope, e: FolderEntry, s: ProtoScope) -> bool
    decreases s,
{
    match s {
        ProtoScope::Enum(en) => e matches FolderEntry::File(f) && enum_module(en, *f),
        ProtoScope::Message(m) => {
            &&& e matches FolderEntry::Folder(f)
            &&& f.name@ == m.name@
            &&& f.entries@.len() == 3 + m.children@.len()
            &&& f.entries@[0] matches FolderEntry::File(t) && types_module(root, m, *t)
            &&& f.entries@[1] matches FolderEntry::File(t) && encode_module(root, m, *t)
            &&& f.entries@[2] matches FolderEntry::File(t) && decode_module(root, m, *t)
            &&& forall|k: int| 0 <= k < m.children@.len() ==> generated_entry(root, #[trigger] f.entries@[3 + k], m.children@[k])
        },
        ProtoScope::File(fs) => {
            &&& e matches FolderEntry::Folder(f)
            &&& f.name@ == folder_name_of(fs.name@)
            &&& f.entries@.len() == fs.children@.len()
            &&& forall|k: int| 0 <= k < fs.children@.len() ==> generated_entry(root, #[trigger] f.entries@[k], fs.children@[k])
        },
        ProtoScope::Package(p) => {
            &&& e matches FolderEntry::Folder(f)
            &&& f.name@ == p.name@
            &&& f.entries@.len() == p.children@.len()
            &&& forall|k: int| 0 <= k < p.children@.len() ==> generated_entry(root, #[trigger] f.entries@[k], p.children@[k])
        },
    }
}

/// Whether the modules of a message itself can be generated: its interfaces (see
/// `insert_message_types`), its encoding and its decoding module.
pub open spec fn message_modules_succeed(root: RootScope, m: MessageScope) -> bool {
    &&& !has_one_of(m.entries@)
    &&& fields_importable(root, m.id, m.entries@)
    &&& encode_succeeds(root, m)
    &&& decode_succeeds(root, m)
}

/// Whether what is generated for a scope (see `generated_entry`) can be generated:
/// each message's own modules can, a package holds only packages and files, a file or
/// a message only enums and messages, and so on down.
pub open spec fn generation_succeeds(root: RootScope, s: ProtoScope) -> bool
    decreases s,
{
    match s {
        ProtoScope::Enum(_) => true,
        ProtoScope::Message(m) => message_modules_succeed(root, m) && forall|k: int| 0 <= k < m.children@.len() ==> {
            &&& (#[trigger] m.children@[k] is Enum || m.children@[k] is Message)
            &&& generation_succeeds(root, m.children@[k])
        },
        ProtoScope::File(f) => forall|k: int| 0 <= k < f.children@.len() ==> {
            &&& (#[trigger] f.children@[k] is Enum || f.children@[k] is Message)
            &&& generation_succeeds(root, f.children@[k])
        },
        ProtoScope::Package(p) => forall|k: int| 0 <= k < p.children@.len() ==> {
            &&& (#[trigger] p.children@[k] is Package || p.children@[k] is File)
            &&& generation_succeeds(root, p.children@[k])
        },
    }
}

/// The folder of a message: its modules `types`, `encode` and `decode`, then the
/// folders and modules of its nested declarations.
pub fn insert_message_declaration(root: &RootScope, message_parent_folder: &mut Folder, message_scope: &MessageScope) -> (r: Result<(), ProtoError>)
    ensures
        final(message_parent_folder).name == old(message_parent_folder).name,
        has_one_of(message_scope.entries@) ==> r is Err,
        (exists|k: int| 0 <= k < message_fields_of(message_scope.entries@).len()
            && !tag_in_range(#[trigger] message_fields_of(message_scope.entries@)[k].tag)) ==> r is Err,
        (exists|k: int| 0 <= k < message_fields_of(message_scope.entries@).len()
            && !encodable_type(#[trigger] message_fields_of(message_scope.entries@)[k].field_type@)) ==> r is Err,
        (exists|k: int| 0 <= k < message_fields_of(message_scope.entries@).len()
            && !decodable(#[trigger] message_fields_of(message_scope.entries@)[k].field_type@)) ==> r is Err,
        r is Ok ==> (final(message_parent_folder).entries@ == old(message_parent_folder).entries@.push(
            final(message_parent_folder).entries@.last(),
        ) && generated_entry(*root, final(message_parent_folder).entries@.last(), ProtoScope::Message(*message_scope))),
        r is Ok <==> generation_succeeds(*root, ProtoScope::Message(*message_scope)),
    decreases message_scope, 2int,
{
    let mut message_folder = Folder::new(message_scope.name.clone());
    insert_message_types(root, &mut message_folder, message_scope)?;
    compile_encode(root, &mut message_folder, message_scope)?;
    compile_decode(root, &mut message_folder, message_scope)?;
    let ghost three = message_folder.entries@;
    assert(three.len() == 3);
    assert(three[0] matches FolderEntry::File(t) && types_module(*root, *message_scope, *t));
    assert(three[1] matches FolderEntry::File(t) && encode_module(*root, *message_scope, *t));
    assert(three[2] matches FolderEntry::File(t) && decode_module(*root, *message_scope, *t));
    insert_children(root, &mut message_folder, message_scope)?;
    proof {
        let es = message_folder.entries@;
        assert(es.subrange(0, 3) == three);
        assert(es[0] == three[0] && es[1] == three[1] && es[2] == three[2]);
        assert forall|k: int| 0 <= k < message_scope.children@.len() implies generated_entry(*root, #[trigger] es[3 + k], message_scope.children@[k]) by {
            assert(generated_entry(*root, es[three.len() + k], message_scope.children@[k]));
        }
    }
    let ghost mf = message_folder;
    message_parent_folder.push_folder(message_folder);
    proof {
        let e = FolderEntry::Folder(Box::new(mf));
        assert(message_parent_folder.entries@.last() == e);
        assert(generated_entry(*root, e, ProtoScope::Message(*message_scope)));
    }
    Ok(())
}

/// The folders and modules of the declarations nested in a message.
pub fn insert_children(root: &RootScope, message_folder: &mut Folder, message_scope: &MessageScope) -> (r: Result<(), ProtoError>)
    ensures
        final(message_folder).name == old(message_folder).name,
        (exists|k: int| 0 <= k < message_scope.children@.len() && (#[trigger] message_scope.children@[k] is Package
            || message_scope.children@[k] is File)) ==> r is Err,
        r is Ok ==> (final(message_folder).entries@.len() == old(message_folder).entries@.len() + message_scope.children@.len()
            && final(message_folder).entries@.subrange(0, old(message_folder).entries@.len() as int) == old(message_folder).entries@
            && forall|k: int| 0 <= k < message_scope.children@.len() ==> generated_entry(*root, 
                #[trigger] final(message_folder).entries@[old(message_folder).entries@.len() + k],
                message_scope.children@[k],
            )),
        r is Ok <==> forall|k: int| 0 <= k < message_scope.children@.len() ==> {
            &&& (#[trigger] message_scope.children@[k] is Enum || message_scope.children@[k] is Message)
            &&& generation_succeeds(*root, message_scope.children@[k])
        },
    decreases message_scope, 1int,
{
    let ghost start = message_folder.entries@;
    let mut k: usize = 0;
    while k < message_scope.children.len()
        invariant
            k <= message_scope.children@.len(),
            message_folder.name == old(message_folder).name,
            start == old(message_folder).entries@,
            message_folder.entries@.len() == start.len() + k,
            message_folder.entries@.subrange(0, start.len() as int) == start,
            forall|j: int| 0 <= j < k ==> generated_entry(*root, #[trigger] message_folder.entries@[start.len() + j], message_scope.children@[j]),
            forall|j: int| 0 <= j < k ==> (#[trigger] message_scope.children@[j] is Enum || message_scope.children@[j] is Message),
            forall|j: int| 0 <= j < k ==> generation_succeeds(*root, #[trigger] message_scope.children@[j]),
        decreases message_scope.children@.len() - k,
    {
        let ghost before = message_folder.entries@;
        proof {
            assert(decreases_to!(*message_scope => message_scope.children@[k as int]));
        }
        match &message_scope.children[k] {
            ProtoScope::Enum(e) => insert_enum_declaration(root, message_folder, e),
            ProtoScope::Message(m) => {
                proof {
                    assert(decreases_to!(*message_scope => *m));
                }
                let inserted = insert_message_declaration(root, message_folder, m);
                proof {
                    if inserted is Err {
                        assert(!generation_succeeds(*root, message_scope.children@[k as int]));
                    }
                }
                inserted?;
            },
            _ => {
                assert(!(message_scope.children@[k as int] is Enum || message_scope.children@[k as int] is Message));
                return Err(ProtoError::new("A message can only hold enums and messages"));
            },
        }
        proof {
            let es = message_folder.entries@;
            assert(es.len() == before.len() + 1);
            assert(es.subrange(0, before.len() as int) =~= before);
            assert(es.subrange(0, start.len() as int) =~= start);
            assert forall|j: int| 0 <= j < k + 1 implies generated_entry(*root, #[trigger] es[start.len() + j], message_scope.children@[j]) by {
                if j < k {
                    assert(es[start.len() + j] == before[start.len() + j]);
                } else {
                    assert(es[start.len() + j] == es.last());
                }
            }
        }
        k = k + 1;
    }
    Ok(())
}


/// The folder of a file, named as the file without `.proto`: a module per enum and a
/// folder per message declared in it.
pub fn file_to_folder(root: &RootScope, file_scope: &FileScope) -> (r: Result<Folder, ProtoError>)
    ensures
        (exists|k: int| 0 <= k < file_scope.children@.len() && (#[trigger] file_scope.children@[k] is Package || file_scope.children@[k] is File))
            ==> r is Err,
        r matches Ok(f) ==> generated_entry(*root, FolderEntry::Folder(Box::new(f)), ProtoScope::File(*file_scope)),
        r is Ok <==> generation_succeeds(*root, ProtoScope::File(*file_scope)),
{
    let folder_name = file_name_to_folder_name(&file_scope.name);
    let mut res = Folder::new(folder_name);
    let mut k: usize = 0;
    while k < file_scope.children.len()
        invariant
            k <= file_scope.children@.len(),
            res.name@ == folder_name_of(file_scope.name@),
            res.entries@.len() == k,
            forall|j: int| 0 <= j < k ==> generated_entry(*root, #[trigger] res.entries@[j], file_scope.children@[j]),
            forall|j: int| 0 <= j < k ==> (#[trigger] file_scope.children@[j] is Enum || file_scope.children@[j] is Message),
            forall|j: int| 0 <= j < k ==> generation_succeeds(*root, #[trigger] file_scope.children@[j]),
        decreases file_scope.children@.len() - k,
    {
        let ghost before = res.entries@;
        match &file_scope.children[k] {
            ProtoScope::Enum(e) => insert_enum_declaration(root, &mut res, e),
            ProtoScope::Message(m) => {
                let inserted = insert_message_declaration(root, &mut res, m);
                proof {
                    if inserted is Err {
                        assert(!generation_succeeds(*root, file_scope.children@[k as int]));
                    }
                }
                inserted?;
            },
            _ => {
                assert(!(file_scope.children@[k as int] is Enum || file_scope.children@[k as int] is Message));
                return Err(ProtoError::new("A file can only hold enums and messages"));
            },
        }
        proof {
            let es = res.entries@;
            assert(es.subrange(0, before.len() as int) =~= before);
            assert forall|j: int| 0 <= j < k + 1 implies generated_entry(*root, #[trigger] es[j], file_scope.children@[j]) by {
                if j < k {
                    assert(es[j] == before[j]);
                }
            }
        }
        k = k + 1;
    }
    Ok(res)
}

/// The folder of a package: a folder per nested package and per file.
pub fn scope_to_folder(root: &RootScope, scope: &PackageScope) -> (r: Result<Folder, ProtoError>)
    ensures
        (exists|k: int| 0 <= k < scope.children@.len() && (#[trigger] scope.children@[k] is Enum || scope.children@[k] is Message))
            ==> r is Err,
        r matches Ok(f) ==> generated_entry(*root, FolderEntry::Folder(Box::new(f)), ProtoScope::Package(*scope)),
        r is Ok <==> generation_succeeds(*root, ProtoScope::Package(*scope)),
    decreases scope,
{
    let mut folder = Folder::new(scope.name.clone());
    let mut k: usize = 0;
    while k < scope.children.len()
        invariant
            k <= scope.children@.len(),
            folder.name@ == scope.name@,
            folder.entries@.len() == k,
            forall|j: int| 0 <= j < k ==> generated_entry(*root, #[trigger] folder.entries@[j], scope.children@[j]),
            forall|j: int| 0 <= j < k ==> (#[trigger] scope.children@[j] is Package || scope.children@[j] is File),
            forall|j: int| 0 <= j < k ==> generation_succeeds(*root, #[trigger] scope.children@[j]),
        decreases scope.children@.len() - k,
    {
        let child_folder = match &scope.children[k] {
            ProtoScope::Package(p) => {
                proof {
                    assert(decreases_to!(*scope => scope.children@[k as int]));
                    assert(decreases_to!(*scope => *p));
                }
                let made = scope_to_folder(root, p);
                proof {
                    if made is Err {
                        assert(!generation_succeeds(*root, scope.children@[k as int]));
                    }
                }
                made?
            },
            ProtoScope::File(f) => {
                let made = file_to_folder(root, f);
                proof {
                    if made is Err {
                        assert(!generation_succeeds(*root, scope.children@[k as int]));
                    }
                }
                made?
            },
            _ => {
                return Err(ProtoError::new("A package can only hold packages and files"));
            },
        };
        let ghost before = folder.entries@;
        let ghost cf = child_folder;
        folder.push_folder(child_folder);
        proof {
            let es = folder.entries@;
            assert(es[k as int] == FolderEntry::Folder(Box::new(cf)));
            assert forall|j: int| 0 <= j < k + 1 implies generated_entry(*root, #[trigger] es[j], scope.children@[j]) by {
                if j < k {
                    assert(es[j] == before[j]);
                }
            }
        }
        k = k + 1;
    }
    Ok(folder)
}

/// The whole generated tree, in a folder named `folder_name`: a folder per package and
/// per file at the root. Declarations outside any file are not handled.
pub fn root_scope_to_folder(root: &RootScope, folder_name: String) -> (r: Result<Folder, ProtoError>)
    ensures
        (exists|k: int| 0 <= k < root.scopes().len() && (#[trigger] root.scopes()[k] is Enum || root.scopes()[k] is Message))
            ==> r is Err,
        r matches Ok(f) ==> (f.name@ == folder_name@ && f.entries@.len() == root.scopes().len()
            && forall|k: int| 0 <= k < root.scopes().len() ==> generated_entry(*root, #[trigger] f.entries@[k], root.scopes()[k])),
        r is Ok <==> forall|k: int| 0 <= k < root.scopes().len() ==> {
            &&& (#[trigger] root.scopes()[k] is Package || root.scopes()[k] is File)
            &&& generation_succeeds(*root, root.scopes()[k])
        },
{
    let mut folder = Folder::new(folder_name);
    let mut k: usize = 0;
    while k < root.children().len()
        invariant
            k <= root.scopes().len(),
            folder.name@ == folder_name@,
            folder.entries@.len() == k,
            forall|j: int| 0 <= j < k ==> generated_entry(*root, #[trigger] folder.entries@[j], root.scopes()[j]),
            forall|j: int| 0 <= j < k ==> (#[trigger] root.scopes()[j] is Package || root.scopes()[j] is File),
            forall|j: int| 0 <= j < k ==> generation_succeeds(*root, #[trigger] root.scopes()[j]),
        decreases root.scopes().len() - k,
    {
        let child_folder = match &root.children()[k] {
            ProtoScope::Package(p) => {
                let made = scope_to_folder(root, p);
                proof {
                    if made is Err {
                        assert(!generation_succeeds(*root, root.scopes()[k as int]));
                    }
                }
                made?
            },
            ProtoScope::File(f) => {
                let made = file_to_folder(root, f);
                proof {
                    if made is Err {
                        assert(!generation_succeeds(*root, root.scopes()[k as int]));
                    }
                }
                made?
            },
            _ => {
                assert(!(root.scopes()[k as int] is Package || root.scopes()[k as int] is File));
                return Err(ProtoError::NotImplemented("declarations outside of any file".to_string()));
            },
        };
        let ghost before = folder.entries@;
        let ghost cf = child_folder;
        folder.push_folder(child_folder);
        proof {
            let es = folder.entries@;
            assert(es[k as int] == FolderEntry::Folder(Box::new(cf)));
            assert forall|j: int| 0 <= j < k + 1 implies generated_entry(*root, #[trigger] es[j], root.scopes()[j]) by {
                if j < k {
                    assert(es[j] == before[j]);
                }
            }
        }
        k = k + 1;
    }
    Ok(folder)
}

} // verus!
