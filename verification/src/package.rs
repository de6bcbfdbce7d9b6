//! The parsed contents of a `.proto` file and the resolved field types.
use vstd::prelude::*;
use crate::text::{join, views, str_eq};

verus! {

/// The protocol buffers syntax version a file declares.
#[derive(Debug, Clone, Copy, PartialEq, Eq, Structural)]
pub enum ProtoVersion {
    Proto2,
    Proto3,
}

/// One named value of an enum declaration.
#[derive(Debug)]
pub struct EnumEntry {
    pub name: String,
    pub value: i64,
}

/// An `enum` declaration.
#[derive(Debug)]
pub struct EnumDeclaration {
    pub id: usize,
    pub name: String,
    pub entries: Vec<EnumEntry>,
}

/// A field type as written in the schema, before name resolution.
#[derive(Debug)]
pub enum FieldTypeReference {
    IdPath(Vec<String>),
    Repeated(Box<FieldTypeReference>),
    MapOf(Box<FieldTypeReference>, Box<FieldTypeReference>),
    Bool,
    Bytes,
    Double,
    Fixed32,
    Fixed64,
    Float,
    Int32,
    Int64,
    Sfixed32,
    Sfixed64,
    Sint32,
    Sint64,
    String,
    Uint32,
    Uint64,
}

/// A field type after name resolution: declarations are referred to by id.
#[derive(Debug)]
pub enum Type {
    Enum(usize),
    Message(usize),
    Repeated(Box<Type>),
    MapOf(Box<Type>, Box<Type>),
    Bool,
    Bytes,
    Double,
    Fixed32,
    Fixed64,
    Float,
    Int32,
    Int64,
    Sfixed32,
    Sfixed64,
    Sint32,
    Sint64,
    String,
    Uint32,
    Uint64,
}

/// A field as declared in a message.
#[derive(Debug)]
pub struct FieldDeclaration {
    pub name: String,
    pub field_type_ref: FieldTypeReference,
    pub tag: i64,
    pub attributes: Vec<(String, String)>,
}

/// A field whose type has been resolved.
#[derive(Debug)]
pub struct Field {
    pub name: String,
    pub field_type: Type,
    pub tag: i64,
    pub attributes: Vec<(String, String)>,
}

/// A resolved `oneof` group.
#[derive(Debug)]
pub struct OneOfGroup {
    pub name: String,
    pub options: Vec<Field>,
}

/// A declared `oneof` group.
#[derive(Debug)]
pub struct OneOfDeclaration {
    pub name: String,
    pub options: Vec<FieldDeclaration>,
}

/// An entry of a resolved message.
#[derive(Debug)]
pub enum MessageEntry {
    Field(Field),
    OneOf(OneOfGroup),
}

/// An entry of a declared message.
#[derive(Debug)]
pub enum MessageDeclarationEntry {
    Field(FieldDeclaration),
    Declaration(Declaration),
    OneOf(OneOfDeclaration),
}

/// A `message` declaration.
#[derive(Debug)]
pub struct MessageDeclaration {
    pub id: usize,
    pub name: String,
    pub entries: Vec<MessageDeclarationEntry>,
}

/// A top-level or nested declaration.
#[derive(Debug)]
pub enum Declaration {
    Enum(EnumDeclaration),
    Message(MessageDeclaration),
}

/// An `import` of another file: its package folders and its file name.
#[derive(Debug)]
pub struct ImportPath {
    pub file_name: String,
    pub packages: Vec<String>,
}

/// A parsed `.proto` file.
#[derive(Debug)]
pub struct ProtoFile {
    pub version: ProtoVersion,
    pub declarations: Vec<Declaration>,
    pub imports: Vec<ImportPath>,
    pub path: Vec<String>,
    pub name: String,
}

} // verus!

verus! {

/// The model of a field type reference: names as character sequences.
pub enum TypeRefV {
    IdPath(Seq<Seq<char>>),
    Repeated(Box<TypeRefV>),
    MapOf(Box<TypeRefV>, Box<TypeRefV>),
    Bool,
    Bytes,
    Double,
    Fixed32,
    Fixed64,
    Float,
    Int32,
    Int64,
    Sfixed32,
    Sfixed64,
    Sint32,
    Sint64,
    String,
    Uint32,
    Uint64,
}

/// The model of a resolved type.
pub enum TypeV {
    Enum(nat),
    Message(nat),
    Repeated(Box<TypeV>),
    MapOf(Box<TypeV>, Box<TypeV>),
    Bool,
    Bytes,
    Double,
    Fixed32,
    Fixed64,
    Float,
    Int32,
    Int64,
    Sfixed32,
    Sfixed64,
    Sint32,
    Sint64,
    String,
    Uint32,
    Uint64,
}

pub open spec fn type_ref_view(t: FieldTypeReference) -> TypeRefV
    decreases t,
{
    match t {
        FieldTypeReference::IdPath(ids) => TypeRefV::IdPath(views(ids@)),
        FieldTypeReference::Repeated(e) => TypeRefV::Repeated(Box::new(type_ref_view(*e))),
        FieldTypeReference::MapOf(k, v) => TypeRefV::MapOf(
            Box::new(type_ref_view(*k)),
            Box::new(type_ref_view(*v)),
        ),
        FieldTypeReference::Bool => TypeRefV::Bool,
        FieldTypeReference::Bytes => TypeRefV::Bytes,
        FieldTypeReference::Double => TypeRefV::Double,
        FieldTypeReference::Fixed32 => TypeRefV::Fixed32,
        FieldTypeReference::Fixed64 => TypeRefV::Fixed64,
        FieldTypeReference::Float => TypeRefV::Float,
        FieldTypeReference::Int32 => TypeRefV::Int32,
        FieldTypeReference::Int64 => TypeRefV::Int64,
        FieldTypeReference::Sfixed32 => TypeRefV::Sfixed32,
        FieldTypeReference::Sfixed64 => TypeRefV::Sfixed64,
        FieldTypeReference::Sint32 => TypeRefV::Sint32,
        FieldTypeReference::Sint64 => TypeRefV::Sint64,
        FieldTypeReference::String => TypeRefV::String,
        FieldTypeReference::Uint32 => TypeRefV::Uint32,
        FieldTypeReference::Uint64 => TypeRefV::Uint64,
    }
}

impl View for FieldTypeReference {
    type V = TypeRefV;

    open spec fn view(&self) -> TypeRefV {
        type_ref_view(*self)
    }
}

pub open spec fn type_view(t: Type) -> TypeV
    decreases t,
{
    match t {
        Type::Enum(id) => TypeV::Enum(id as nat),
        Type::Message(id) => TypeV::Message(id as nat),
        Type::Repeated(e) => TypeV::Repeated(Box::new(type_view(*e))),
        Type::MapOf(k, v) => TypeV::MapOf(Box::new(type_view(*k)), Box::new(type_view(*v))),
        Type::Bool => TypeV::Bool,
        Type::Bytes => TypeV::Bytes,
        Type::Double => TypeV::Double,
        Type::Fixed32 => TypeV::Fixed32,
        Type::Fixed64 => TypeV::Fixed64,
        Type::Float => TypeV::Float,
        Type::Int32 => TypeV::Int32,
        Type::Int64 => TypeV::Int64,
        Type::Sfixed32 => TypeV::Sfixed32,
        Type::Sfixed64 => TypeV::Sfixed64,
        Type::Sint32 => TypeV::Sint32,
        Type::Sint64 => TypeV::Sint64,
        Type::String => TypeV::String,
        Type::Uint32 => TypeV::Uint32,
        Type::Uint64 => TypeV::Uint64,
    }
}

impl View for Type {
    type V = TypeV;

    open spec fn view(&self) -> TypeV {
        type_view(*self)
    }
}

pub open spec fn attributes_view(a: Seq<(String, String)>) -> Seq<(Seq<char>, Seq<char>)> {
    a.map_values(|p: (String, String)| (p.0@, p.1@))
}

/// Model of an enum entry.
pub struct EnumEntryV {
    pub name: Seq<char>,
    pub value: int,
}

/// Model of an enum declaration.
pub struct EnumDeclarationV {
    pub id: nat,
    pub name: Seq<char>,
    pub entries: Seq<EnumEntryV>,
}

/// Model of a declared field.
pub struct FieldDeclarationV {
    pub name: Seq<char>,
    pub field_type_ref: TypeRefV,
    pub tag: int,
    pub attributes: Seq<(Seq<char>, Seq<char>)>,
}

/// Model of a resolved field.
pub struct FieldV {
    pub name: Seq<char>,
    pub field_type: TypeV,
    pub tag: int,
    pub attributes: Seq<(Seq<char>, Seq<char>)>,
}

/// Model of a declared `oneof`.
pub struct OneOfDeclarationV {
    pub name: Seq<char>,
    pub options: Seq<FieldDeclarationV>,
}

/// Model of an entry of a declared message.
pub enum MessageDeclarationEntryV {
    Field(FieldDeclarationV),
    Declaration(DeclarationV),
    OneOf(OneOfDeclarationV),
}

/// Model of a message declaration.
pub struct MessageDeclarationV {
    pub id: nat,
    pub name: Seq<char>,
    pub entries: Seq<MessageDeclarationEntryV>,
}

/// Model of a declaration.
pub enum DeclarationV {
    Enum(EnumDeclarationV),
    Message(MessageDeclarationV),
}

/// Model of an import path.
pub struct ImportPathV {
    pub file_name: Seq<char>,
    pub packages: Seq<Seq<char>>,
}

/// Model of a parsed file.
pub struct ProtoFileV {
    pub version: ProtoVersion,
    pub declarations: Seq<DeclarationV>,
    pub imports: Seq<ImportPathV>,
    pub path: Seq<Seq<char>>,
    pub name: Seq<char>,
}

impl View for EnumEntry {
    type V = EnumEntryV;

    open spec fn view(&self) -> EnumEntryV {
        EnumEntryV { name: self.name@, value: self.value as int }
    }
}

impl View for EnumDeclaration {
    type V = EnumDeclarationV;

    open spec fn view(&self) -> EnumDeclarationV {
        EnumDeclarationV {
            id: self.id as nat,
            name: self.name@,
            entries: self.entries@.map_values(|e: EnumEntry| e@),
        }
    }
}

impl View for FieldDeclaration {
    type V = FieldDeclarationV;

    open spec fn view(&self) -> FieldDeclarationV {
        FieldDeclarationV {
            name: self.name@,
            field_type_ref: self.field_type_ref@,
            tag: self.tag as int,
            attributes: attributes_view(self.attributes@),
        }
    }
}

impl View for Field {
    type V = FieldV;

    open spec fn view(&self) -> FieldV {
        FieldV {
            name: self.name@,
            field_type: self.field_type@,
            tag: self.tag as int,
            attributes: attributes_view(self.attributes@),
        }
    }
}

impl View for OneOfDeclaration {
    type V = OneOfDeclarationV;

    open spec fn view(&self) -> OneOfDeclarationV {
        OneOfDeclarationV {
            name: self.name@,
            options: self.options@.map_values(|f: FieldDeclaration| f@),
        }
    }
}

pub open spec fn declaration_view(d: Declaration) -> DeclarationV
    decreases d,
{
    match d {
        Declaration::Enum(e) => DeclarationV::Enum(e@),
        Declaration::Message(m) => DeclarationV::Message(message_view(m)),
    }
}

pub open spec fn message_view(m: MessageDeclaration) -> MessageDeclarationV
    decreases m,
{
    MessageDeclarationV {
        id: m.id as nat,
        name: m.name@,
        entries: entries_view(m.entries@),
    }
}

pub open spec fn entries_view(s: Seq<MessageDeclarationEntry>) -> Seq<MessageDeclarationEntryV>
    decreases s,
{
    if s.len() == 0 {
        Seq::empty()
    } else {
        entries_view(s.subrange(0, s.len() - 1)).push(message_entry_view(s[s.len() - 1]))
    }
}

pub open spec fn message_entry_view(e: MessageDeclarationEntry) -> MessageDeclarationEntryV
    decreases e,
{
    match e {
        MessageDeclarationEntry::Field(f) => MessageDeclarationEntryV::Field(f@),
        MessageDeclarationEntry::Declaration(d) => MessageDeclarationEntryV::Declaration(
            declaration_view(d),
        ),
        MessageDeclarationEntry::OneOf(o) => MessageDeclarationEntryV::OneOf(o@),
    }
}

/// Pushing an entry pushes its model.
pub proof fn lemma_entries_view_push(s: Seq<MessageDeclarationEntry>, e: MessageDeclarationEntry)
    ensures
        entries_view(s.push(e)) == entries_view(s).push(e@),
{
    assert(s.push(e).subrange(0, s.len() as int) =~= s);
}

impl View for Declaration {
    type V = DeclarationV;

    open spec fn view(&self) -> DeclarationV {
        declaration_view(*self)
    }
}

impl View for MessageDeclaration {
    type V = MessageDeclarationV;

    open spec fn view(&self) -> MessageDeclarationV {
        message_view(*self)
    }
}

impl View for MessageDeclarationEntry {
    type V = MessageDeclarationEntryV;

    open spec fn view(&self) -> MessageDeclarationEntryV {
        message_entry_view(*self)
    }
}

impl View for ImportPath {
    type V = ImportPathV;

    open spec fn view(&self) -> ImportPathV {
        ImportPathV { file_name: self.file_name@, packages: views(self.packages@) }
    }
}

impl View for ProtoFile {
    type V = ProtoFileV;

    open spec fn view(&self) -> ProtoFileV {
        ProtoFileV {
            version: self.version,
            declarations: self.declarations@.map_values(|d: Declaration| d@),
            imports: self.imports@.map_values(|i: ImportPath| i@),
            path: views(self.path@),
            name: self.name@,
        }
    }
}

} // verus!

verus! {

/// The scalar type a schema names with a single word.
pub open spec fn basic_of_name(n: Seq<char>) -> Option<TypeRefV> {
    if n == "bool"@ {
        Some(TypeRefV::Bool)
    } else if n == "bytes"@ {
        Some(TypeRefV::Bytes)
    } else if n == "double"@ {
        Some(TypeRefV::Double)
    } else if n == "fixed32"@ {
        Some(TypeRefV::Fixed32)
    } else if n == "fixed64"@ {
        Some(TypeRefV::Fixed64)
    } else if n == "float"@ {
        Some(TypeRefV::Float)
    } else if n == "int32"@ {
        Some(TypeRefV::Int32)
    } else if n == "int64"@ {
        Some(TypeRefV::Int64)
    } else if n == "sfixed32"@ {
        Some(TypeRefV::Sfixed32)
    } else if n == "sfixed64"@ {
        Some(TypeRefV::Sfixed64)
    } else if n == "sint32"@ {
        Some(TypeRefV::Sint32)
    } else if n == "sint64"@ {
        Some(TypeRefV::Sint64)
    } else if n == "string"@ {
        Some(TypeRefV::String)
    } else if n == "uint32"@ {
        Some(TypeRefV::Uint32)
    } else if n == "uint64"@ {
        Some(TypeRefV::Uint64)
    } else {
        None
    }
}

/// The type a dotted name denotes before resolution: a scalar type when it is
/// a single scalar word, otherwise a reference by path.
pub open spec fn type_ref_of_ids(ids: Seq<Seq<char>>) -> TypeRefV {
    if ids.len() == 1 && basic_of_name(ids[0]) is Some {
        basic_of_name(ids[0]).unwrap()
    } else {
        TypeRefV::IdPath(ids)
    }
}

/// Scalar (non-composite, non-reference) types.
pub open spec fn is_basic_ref(t: TypeRefV) -> bool {
    !(t is IdPath || t is Repeated || t is MapOf)
}

/// Resolution of a type reference that needs no name lookup.
pub open spec fn trivial_resolution(t: TypeRefV) -> Option<TypeV>
    decreases t,
{
    match t {
        TypeRefV::IdPath(_) => None,
        TypeRefV::Repeated(e) => match trivial_resolution(*e) {
            Some(r) => Some(TypeV::Repeated(Box::new(r))),
            None => None,
        },
        TypeRefV::MapOf(k, v) => match (trivial_resolution(*k), trivial_resolution(*v)) {
            (Some(rk), Some(rv)) => Some(TypeV::MapOf(Box::new(rk), Box::new(rv))),
            _ => None,
        },
        TypeRefV::Bool => Some(TypeV::Bool),
        TypeRefV::Bytes => Some(TypeV::Bytes),
        TypeRefV::Double => Some(TypeV::Double),
        TypeRefV::Fixed32 => Some(TypeV::Fixed32),
        TypeRefV::Fixed64 => Some(TypeV::Fixed64),
        TypeRefV::Float => Some(TypeV::Float),
        TypeRefV::Int32 => Some(TypeV::Int32),
        TypeRefV::Int64 => Some(TypeV::Int64),
        TypeRefV::Sfixed32 => Some(TypeV::Sfixed32),
        TypeRefV::Sfixed64 => Some(TypeV::Sfixed64),
        TypeRefV::Sint32 => Some(TypeV::Sint32),
        TypeRefV::Sint64 => Some(TypeV::Sint64),
        TypeRefV::String => Some(TypeV::String),
        TypeRefV::Uint32 => Some(TypeV::Uint32),
        TypeRefV::Uint64 => Some(TypeV::Uint64),
    }
}

/// The wire type of a scalar type inside a packed repeated field, when it can be packed.
pub open spec fn packed_wire_type_of(t: TypeRefV) -> Option<u32> {
    match t {
        TypeRefV::Bool => Some(0),
        TypeRefV::Double => Some(1),
        TypeRefV::Fixed32 => Some(5),
        TypeRefV::Fixed64 => Some(1),
        TypeRefV::Float => Some(5),
        TypeRefV::Int32 => Some(0),
        TypeRefV::Int64 => Some(0),
        TypeRefV::Sfixed32 => Some(5),
        TypeRefV::Sfixed64 => Some(1),
        TypeRefV::Sint32 => Some(0),
        TypeRefV::Sint64 => Some(0),
        TypeRefV::Uint32 => Some(0),
        TypeRefV::Uint64 => Some(0),
        _ => None,
    }
}

/// The wire type of a type used as a map key, when it may be one.
pub open spec fn map_key_wire_type_of(t: TypeRefV) -> Option<u32> {
    match t {
        TypeRefV::Bool => Some(0),
        TypeRefV::Fixed32 => Some(5),
        TypeRefV::Fixed64 => Some(1),
        TypeRefV::Int32 => Some(0),
        TypeRefV::Int64 => Some(0),
        TypeRefV::Sfixed32 => Some(5),
        TypeRefV::Sfixed64 => Some(1),
        TypeRefV::Sint32 => Some(0),
        TypeRefV::Sint64 => Some(0),
        TypeRefV::String => Some(2),
        TypeRefV::Uint32 => Some(0),
        TypeRefV::Uint64 => Some(0),
        _ => None,
    }
}

/// The wire type of a scalar type.
pub open spec fn basic_wire_type_of(t: TypeRefV) -> u32 {
    match t {
        TypeRefV::Bool => 0,
        TypeRefV::Bytes => 2,
        TypeRefV::Double => 1,
        TypeRefV::Fixed32 => 5,
        TypeRefV::Fixed64 => 1,
        TypeRefV::Float => 5,
        TypeRefV::Int32 => 0,
        TypeRefV::Int64 => 0,
        TypeRefV::Sfixed32 => 5,
        TypeRefV::Sfixed64 => 1,
        TypeRefV::Sint32 => 0,
        TypeRefV::Sint64 => 0,
        TypeRefV::String => 2,
        TypeRefV::Uint32 => 0,
        _ => 0,
    }
}

/// The schema spelling of a type reference.
pub open spec fn type_ref_text(t: TypeRefV) -> Seq<char>
    decreases t,
{
    match t {
        TypeRefV::IdPath(ids) => join(ids, "."@),
        TypeRefV::Repeated(e) => "repeated "@ + type_ref_text(*e),
        TypeRefV::MapOf(k, v) => "map<"@ + type_ref_text(*k) + ", "@ + type_ref_text(*v) + ">"@,
        TypeRefV::Bool => "bool"@,
        TypeRefV::Bytes => "bytes"@,
        TypeRefV::Double => "double"@,
        TypeRefV::Fixed32 => "fixed32"@,
        TypeRefV::Fixed64 => "fixed64"@,
        TypeRefV::Float => "float"@,
        TypeRefV::Int32 => "int32"@,
        TypeRefV::Int64 => "int64"@,
        TypeRefV::Sfixed32 => "sfixed32"@,
        TypeRefV::Sfixed64 => "sfixed64"@,
        TypeRefV::Sint32 => "sint32"@,
        TypeRefV::Sint64 => "sint64"@,
        TypeRefV::String => "string"@,
        TypeRefV::Uint32 => "uint32"@,
        TypeRefV::Uint64 => "uint64"@,
    }
}

impl FieldTypeReference {
    /// The type a dotted name denotes: a scalar type for a single scalar word,
    /// otherwise a reference by path.
    pub fn from_id_path(id_path: Vec<String>) -> (r: FieldTypeReference)
        requires
            id_path.len() > 0,
        ensures
            r@ == type_ref_of_ids(views(id_path@)),
    {
        if id_path.len() == 1 {
            let id = id_path[0].as_str();
            if str_eq(id, "bool") {
                return FieldTypeReference::Bool;
            } else if str_eq(id, "bytes") {
                return FieldTypeReference::Bytes;
            } else if str_eq(id, "double") {
                return FieldTypeReference::Double;
            } else if str_eq(id, "fixed32") {
                return FieldTypeReference::Fixed32;
            } else if str_eq(id, "fixed64") {
                return FieldTypeReference::Fixed64;
            } else if str_eq(id, "float") {
                return FieldTypeReference::Float;
            } else if str_eq(id, "int32") {
                return FieldTypeReference::Int32;
            } else if str_eq(id, "int64") {
                return FieldTypeReference::Int64;
            } else if str_eq(id, "sfixed32") {
                return FieldTypeReference::Sfixed32;
            } else if str_eq(id, "sfixed64") {
                return FieldTypeReference::Sfixed64;
            } else if str_eq(id, "sint32") {
                return FieldTypeReference::Sint32;
            } else if str_eq(id, "sint64") {
                return FieldTypeReference::Sint64;
            } else if str_eq(id, "string") {
                return FieldTypeReference::String;
            } else if str_eq(id, "uint32") {
                return FieldTypeReference::Uint32;
            } else if str_eq(id, "uint64") {
                return FieldTypeReference::Uint64;
            }
        }
        FieldTypeReference::IdPath(id_path)
    }

    /// A repeated field of the given element type.
    pub fn repeated(t: FieldTypeReference) -> (r: FieldTypeReference)
        ensures
            r@ == TypeRefV::Repeated(Box::new(t@)),
    {
        FieldTypeReference::Repeated(Box::new(t))
    }

    /// Whether the type is a scalar type.
    pub fn is_basic(&self) -> (r: bool)
        ensures
            r == is_basic_ref(self@),
    {
        match self {
            FieldTypeReference::IdPath(_) => false,
            FieldTypeReference::Repeated(_) => false,
            FieldTypeReference::MapOf(_, _) => false,
            _ => true,
        }
    }

    /// The resolution of the type when it names no declaration.
    pub fn trivial_resolve(&self) -> (r: Option<Type>)
        ensures
            match r {
                Some(t) => trivial_resolution(self@) == Some(t@),
                None => trivial_resolution(self@) is None,
            },
        decreases self,
    {
        match self {
            FieldTypeReference::IdPath(_) => None,
            FieldTypeReference::Repeated(t) => match t.trivial_resolve() {
                Some(r) => Some(Type::Repeated(Box::new(r))),
                None => None,
            },
            FieldTypeReference::MapOf(k, v) => match k.trivial_resolve() {
                Some(rk) => match v.trivial_resolve() {
                    Some(rv) => Some(Type::MapOf(Box::new(rk), Box::new(rv))),
                    None => None,
                },
                None => None,
            },
            FieldTypeReference::Bool => Some(Type::Bool),
            FieldTypeReference::Bytes => Some(Type::Bytes),
            FieldTypeReference::Double => Some(Type::Double),
            FieldTypeReference::Fixed32 => Some(Type::Fixed32),
            FieldTypeReference::Fixed64 => Some(Type::Fixed64),
            FieldTypeReference::Float => Some(Type::Float),
            FieldTypeReference::Int32 => Some(Type::Int32),
            FieldTypeReference::Int64 => Some(Type::Int64),
            FieldTypeReference::Sfixed32 => Some(Type::Sfixed32),
            FieldTypeReference::Sfixed64 => Some(Type::Sfixed64),
            FieldTypeReference::Sint32 => Some(Type::Sint32),
            FieldTypeReference::Sint64 => Some(Type::Sint64),
            FieldTypeReference::String => Some(Type::String),
            FieldTypeReference::Uint32 => Some(Type::Uint32),
            FieldTypeReference::Uint64 => Some(Type::Uint64),
        }
    }

    /// The wire type used when the type is packed in a repeated field.
    pub fn packed_wire_type(&self) -> (r: Option<u32>)
        ensures
            r == packed_wire_type_of(self@),
    {
        match self {
            FieldTypeReference::Bool => Some(0),
            FieldTypeReference::Double => Some(1),
            FieldTypeReference::Fixed32 => Some(5),
            FieldTypeReference::Fixed64 => Some(1),
            FieldTypeReference::Float => Some(5),
            FieldTypeReference::Int32 => Some(0),
            FieldTypeReference::Int64 => Some(0),
            FieldTypeReference::Sfixed32 => Some(5),
            FieldTypeReference::Sfixed64 => Some(1),
            FieldTypeReference::Sint32 => Some(0),
            FieldTypeReference::Sint64 => Some(0),
            FieldTypeReference::Uint32 => Some(0),
            FieldTypeReference::Uint64 => Some(0),
            FieldTypeReference::IdPath(_) => None,
            FieldTypeReference::Repeated(_) => None,
            FieldTypeReference::MapOf(_, _) => None,
            FieldTypeReference::Bytes => None,
            FieldTypeReference::String => None,
        }
    }

    /// The wire type of the type as a map key.
    pub fn map_key_wire_type(&self) -> (r: Option<u32>)
        ensures
            r == map_key_wire_type_of(self@),
    {
        match self {
            FieldTypeReference::Bool => Some(0),
            FieldTypeReference::Fixed32 => Some(5),
            FieldTypeReference::Fixed64 => Some(1),
            FieldTypeReference::Int32 => Some(0),
            FieldTypeReference::Int64 => Some(0),
            FieldTypeReference::Sfixed32 => Some(5),
            FieldTypeReference::Sfixed64 => Some(1),
            FieldTypeReference::Sint32 => Some(0),
            FieldTypeReference::Sint64 => Some(0),
            FieldTypeReference::String => Some(2),
            FieldTypeReference::Uint32 => Some(0),
            FieldTypeReference::Uint64 => Some(0),
            _ => None,
        }
    }
}

/// The wire type of a scalar type.
pub fn get_basic_wire_type(field_type: &FieldTypeReference) -> (r: u32)
    requires
        is_basic_ref(field_type@),
    ensures
        r == basic_wire_type_of(field_type@),
{
    match field_type {
        FieldTypeReference::Bool => 0,
        FieldTypeReference::Bytes => 2,
        FieldTypeReference::Double => 1,
        FieldTypeReference::Fixed32 => 5,
        FieldTypeReference::Fixed64 => 1,
        FieldTypeReference::Float => 5,
        FieldTypeReference::Int32 => 0,
        FieldTypeReference::Int64 => 0,
        FieldTypeReference::Sfixed32 => 5,
        FieldTypeReference::Sfixed64 => 1,
        FieldTypeReference::Sint32 => 0,
        FieldTypeReference::Sint64 => 0,
        FieldTypeReference::String => 2,
        FieldTypeReference::Uint32 => 0,
        FieldTypeReference::Uint64 => 0,
        FieldTypeReference::IdPath(_) => 0,
        FieldTypeReference::Repeated(_) => 0,
        FieldTypeReference::MapOf(_, _) => 0,
    }
}


/// The JSON name of a field: the value of its first `json_name` attribute, else its name.
pub open spec fn json_name_of(attributes: Seq<(Seq<char>, Seq<char>)>, name: Seq<char>) -> Seq<char>
    decreases attributes.len(),
{
    if attributes.len() == 0 {
        name
    } else if attributes[0].0 == "json_name"@ {
        attributes[0].1
    } else {
        json_name_of(attributes.drop_first(), name)
    }
}

impl FieldDeclaration {
    /// The name under which the field appears in JSON.
    pub fn json_name(&self) -> (r: String)
        ensures
            r@ == json_name_of(attributes_view(self.attributes@), self.name@),
    {
        let ghost attrs = attributes_view(self.attributes@);
        assert(attrs.skip(0) =~= attrs);
        let mut i: usize = 0;
        while i < self.attributes.len()
            invariant
                i <= self.attributes.len(),
                attrs == attributes_view(self.attributes@),
                json_name_of(attrs, self.name@) == json_name_of(attrs.skip(i as int), self.name@),
            decreases self.attributes.len() - i,
        {
            let (key, value) = &self.attributes[i];
            assert(attrs.skip(i as int)[0] == attrs[i as int]);
            assert(attrs.skip(i as int).drop_first() =~= attrs.skip(i + 1));
            if str_eq(key.as_str(), "json_name") {
                return value.clone();
            }
            i = i + 1;
        }
        self.name.clone()
    }
}

impl ProtoFile {
    /// `<packages joined by "/">/<file name>`.
    pub fn full_path(&self) -> (r: String)
        ensures
            r@ == join(views(self.path@), "/"@) + "/"@ + self.name@,
    {
        let mut res = String::new();
        crate::text::push_joined(&mut res, &self.path, "/");
        res.append("/");
        res.append(self.name.as_str());
        res
    }
}

/// The name of a declaration.
pub open spec fn declaration_name(d: Declaration) -> Seq<char> {
    match d {
        Declaration::Enum(e) => e.name@,
        Declaration::Message(m) => m.name@,
    }
}

/// A scope in which a name can be looked up.
pub trait Scope {
    type Declaration;

    /// The declaration that `name` names in this scope, if any.
    fn resolve(&self, name: &str) -> Option<&Self::Declaration>;
}

/// The index of the last declaration among a message's entries named `name`.
pub open spec fn last_declaration_index(entries: Seq<MessageDeclarationEntry>, name: Seq<char>) -> Option<int>
    decreases entries.len(),
{
    if entries.len() == 0 {
        None
    } else {
        match entries.last() {
            MessageDeclarationEntry::Declaration(d) => if declaration_name(d) == name {
                Some(entries.len() - 1)
            } else {
                last_declaration_index(entries.drop_last(), name)
            },
            _ => last_declaration_index(entries.drop_last(), name),
        }
    }
}

/// The index of the first declaration named `name`.
pub open spec fn first_declaration_index(declarations: Seq<Declaration>, name: Seq<char>) -> Option<int>
    decreases declarations.len(),
{
    if declarations.len() == 0 {
        None
    } else if declaration_name(declarations[0]) == name {
        Some(0)
    } else {
        match first_declaration_index(declarations.drop_first(), name) {
            Some(i) => Some(i + 1),
            None => None,
        }
    }
}

/// Whether a declaration has the given name.
fn declaration_has_name(d: &Declaration, name: &str) -> (r: bool)
    ensures
        r == (declaration_name(*d) == name@),
{
    match d {
        Declaration::Enum(e) => str_eq(e.name.as_str(), name),
        Declaration::Message(m) => str_eq(m.name.as_str(), name),
    }
}

proof fn lemma_last_declaration_index(entries: Seq<MessageDeclarationEntry>, name: Seq<char>, i: int)
    requires
        0 <= i <= entries.len(),
    ensures
        last_declaration_index(entries.take(i), name) matches Some(k) ==> 0 <= k < i,
    decreases i,
{
    if i > 0 {
        assert(entries.take(i).drop_last() =~= entries.take(i - 1));
        lemma_last_declaration_index(entries, name, i - 1);
    }
}

impl Scope for MessageDeclaration {
    type Declaration = Declaration;

    /// The last nested declaration named `name`.
    fn resolve(&self, name: &str) -> (r: Option<&Declaration>)
        ensures
            match last_declaration_index(self.entries@, name@) {
                Some(k) => self.entries@[k] matches MessageDeclarationEntry::Declaration(d) && r == Some(&d),
                None => r is None,
            },
    {
        let mut res: Option<&Declaration> = None;
        let mut i: usize = 0;
        while i < self.entries.len()
            invariant
                i <= self.entries.len(),
                match last_declaration_index(self.entries@.take(i as int), name@) {
                    Some(k) => self.entries@[k] matches MessageDeclarationEntry::Declaration(d) && res == Some(&d),
                    None => res is None,
                },
            decreases self.entries.len() - i,
        {
            proof {
                assert(self.entries@.take(i + 1).drop_last() =~= self.entries@.take(i as int));
                assert(self.entries@.take(i + 1).last() == self.entries@[i as int]);
                lemma_last_declaration_index(self.entries@, name@, i as int);
            }
            match &self.entries[i] {
                MessageDeclarationEntry::Declaration(decl) => {
                    if declaration_has_name(decl, name) {
                        res = Some(decl);
                    }
                },
                _ => {},
            }
            i = i + 1;
        }
        assert(self.entries@.take(self.entries.len() as int) =~= self.entries@);
        res
    }
}

impl Scope for ProtoFile {
    type Declaration = Declaration;

    /// The first top-level declaration named `name`.
    fn resolve(&self, name: &str) -> (r: Option<&Declaration>)
        ensures
            match first_declaration_index(self.declarations@, name@) {
                Some(k) => r == Some(&self.declarations@[k]),
                None => r is None,
            },
    {
        assert(self.declarations@.skip(0) =~= self.declarations@);
        let mut i: usize = 0;
        while i < self.declarations.len()
            invariant
                i <= self.declarations.len(),
                first_declaration_index(self.declarations@, name@)
                    == (match first_declaration_index(self.declarations@.skip(i as int), name@) {
                        Some(k) => Some(k + i),
                        None => None,
                    }),
            decreases self.declarations.len() - i,
        {
            assert(self.declarations@.skip(i as int)[0] == self.declarations@[i as int]);
            assert(self.declarations@.skip(i as int).drop_first() =~= self.declarations@.skip(i + 1));
            if declaration_has_name(&self.declarations[i], name) {
                return Some(&self.declarations[i]);
            }
            i = i + 1;
        }
        None
    }
}


/// Model of a resolved message entry.
pub enum MessageEntryV {
    Field(FieldV),
    OneOf(Seq<char>, Seq<FieldV>),
}

/// The models of a list of fields.
pub open spec fn fields_view(s: Seq<Field>) -> Seq<FieldV> {
    s.map_values(|f: Field| f@)
}

impl View for MessageEntry {
    type V = MessageEntryV;

    open spec fn view(&self) -> MessageEntryV {
        match self {
            MessageEntry::Field(f) => MessageEntryV::Field(f@),
            MessageEntry::OneOf(g) => MessageEntryV::OneOf(g.name@, fields_view(g.options@)),
        }
    }
}

/// The models of a list of message entries.
pub open spec fn message_entries_view(s: Seq<MessageEntry>) -> Seq<MessageEntryV> {
    s.map_values(|e: MessageEntry| e@)
}

/// The models of a list of enum entries.
pub open spec fn enum_entries_view(s: Seq<EnumEntry>) -> Seq<EnumEntryV> {
    s.map_values(|e: EnumEntry| e@)
}


/// Whether a resolved type is a scalar.
pub open spec fn is_scalar(t: TypeV) -> bool {
    !(t is Enum || t is Message || t is Repeated || t is MapOf)
}

/// The name of a scalar type, as written in a schema.
pub open spec fn scalar_name(t: TypeV) -> Seq<char> {
    match t {
        TypeV::Bool => "bool"@,
        TypeV::Bytes => "bytes"@,
        TypeV::Double => "double"@,
        TypeV::Fixed32 => "fixed32"@,
        TypeV::Fixed64 => "fixed64"@,
        TypeV::Float => "float"@,
        TypeV::Int32 => "int32"@,
        TypeV::Int64 => "int64"@,
        TypeV::Sfixed32 => "sfixed32"@,
        TypeV::Sfixed64 => "sfixed64"@,
        TypeV::Sint32 => "sint32"@,
        TypeV::Sint64 => "sint64"@,
        TypeV::String => "string"@,
        TypeV::Uint32 => "uint32"@,
        TypeV::Uint64 => "uint64"@,
        _ => ""@,
    }
}

/// The wire type of a repeated scalar that is packed, where it may be.
pub open spec fn resolved_packed_wire_type(t: TypeV) -> Option<u32> {
    match t {
        TypeV::Bool => Some(0),
        TypeV::Double => Some(1),
        TypeV::Fixed32 => Some(5),
        TypeV::Fixed64 => Some(1),
        TypeV::Float => Some(5),
        TypeV::Int32 => Some(0),
        TypeV::Int64 => Some(0),
        TypeV::Sfixed32 => Some(5),
        TypeV::Sfixed64 => Some(1),
        TypeV::Sint32 => Some(0),
        TypeV::Sint64 => Some(0),
        TypeV::Uint32 => Some(0),
        TypeV::Uint64 => Some(0),
        _ => None,
    }
}

/// The wire type of a scalar.
pub open spec fn resolved_wire_type(t: TypeV) -> u32 {
    match t {
        TypeV::Bytes => 2,
        TypeV::String => 2,
        TypeV::Double => 1,
        TypeV::Fixed64 => 1,
        TypeV::Sfixed64 => 1,
        TypeV::Fixed32 => 5,
        TypeV::Float => 5,
        TypeV::Sfixed32 => 5,
        _ => 0,
    }
}

impl Type {
    /// A copy of the type.
    pub fn duplicate(&self) -> (r: Type)
        ensures
            r@ == self@,
        decreases self,
    {
        match self {
            Type::Enum(id) => Type::Enum(*id),
            Type::Message(id) => Type::Message(*id),
            Type::Repeated(t) => Type::Repeated(Box::new((**t).duplicate())),
            Type::MapOf(k, v) => Type::MapOf(Box::new((**k).duplicate()), Box::new((**v).duplicate())),
            Type::Bool => Type::Bool,
            Type::Bytes => Type::Bytes,
            Type::Double => Type::Double,
            Type::Fixed32 => Type::Fixed32,
            Type::Fixed64 => Type::Fixed64,
            Type::Float => Type::Float,
            Type::Int32 => Type::Int32,
            Type::Int64 => Type::Int64,
            Type::Sfixed32 => Type::Sfixed32,
            Type::Sfixed64 => Type::Sfixed64,
            Type::Sint32 => Type::Sint32,
            Type::Sint64 => Type::Sint64,
            Type::String => Type::String,
            Type::Uint32 => Type::Uint32,
            Type::Uint64 => Type::Uint64,
        }
    }

    /// Whether the type is a scalar.
    pub fn is_scalar(&self) -> (r: bool)
        ensures
            r == is_scalar(self@),
    {
        !matches!(self, Type::Enum(_) | Type::Message(_) | Type::Repeated(_) | Type::MapOf(_, _))
    }

    /// The name of a scalar type, as written in a schema (and as the reader and
    /// writer methods are named).
    pub fn scalar_name(&self) -> (r: &'static str)
        ensures
            r@ == scalar_name(self@),
    {
        match self {
            Type::Bool => "bool",
            Type::Bytes => "bytes",
            Type::Double => "double",
            Type::Fixed32 => "fixed32",
            Type::Fixed64 => "fixed64",
            Type::Float => "float",
            Type::Int32 => "int32",
            Type::Int64 => "int64",
            Type::Sfixed32 => "sfixed32",
            Type::Sfixed64 => "sfixed64",
            Type::Sint32 => "sint32",
            Type::Sint64 => "sint64",
            Type::String => "string",
            Type::Uint32 => "uint32",
            Type::Uint64 => "uint64",
            _ => "",
        }
    }

    /// The wire type of the packed encoding of a repeated scalar.
    pub fn packed_wire_type(&self) -> (r: Option<u32>)
        ensures
            r == resolved_packed_wire_type(self@),
    {
        match self {
            Type::Bool => Some(0),
            Type::Double => Some(1),
            Type::Fixed32 => Some(5),
            Type::Fixed64 => Some(1),
            Type::Float => Some(5),
            Type::Int32 => Some(0),
            Type::Int64 => Some(0),
            Type::Sfixed32 => Some(5),
            Type::Sfixed64 => Some(1),
            Type::Sint32 => Some(0),
            Type::Sint64 => Some(0),
            Type::Uint32 => Some(0),
            Type::Uint64 => Some(0),
            _ => None,
        }
    }

    /// The wire type of a scalar.
    pub fn get_basic_wire_type(&self) -> (r: u32)
        ensures
            r == resolved_wire_type(self@),
    {
        match self {
            Type::Bytes => 2,
            Type::String => 2,
            Type::Double => 1,
            Type::Fixed64 => 1,
            Type::Sfixed64 => 1,
            Type::Fixed32 => 5,
            Type::Float => 5,
            Type::Sfixed32 => 5,
            _ => 0,
        }
    }
}

impl Field {
    /// The name under which the field appears in JSON.
    pub fn json_name(&self) -> (r: String)
        ensures
            r@ == json_name_of(attributes_view(self.attributes@), self.name@),
    {
        let ghost attrs = attributes_view(self.attributes@);
        assert(attrs.skip(0) =~= attrs);
        let mut i: usize = 0;
        while i < self.attributes.len()
            invariant
                i <= self.attributes.len(),
                attrs == attributes_view(self.attributes@),
                json_name_of(attrs, self.name@) == json_name_of(attrs.skip(i as int), self.name@),
            decreases self.attributes.len() - i,
        {
            let (key, value) = &self.attributes[i];
            assert(attrs.skip(i as int)[0] == attrs[i as int]);
            assert(attrs.skip(i as int).drop_first() =~= attrs.skip(i + 1));
            if str_eq(key.as_str(), "json_name") {
                return value.clone();
            }
            i = i + 1;
        }
        self.name.clone()
    }
}

} // verus!
