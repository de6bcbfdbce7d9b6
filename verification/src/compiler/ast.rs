//! The TypeScript syntax tree the compiler builds.
use vstd::prelude::*;
use crate::text::{int_text, push_int};

verus! {

/// An identifier.
#[derive(Debug)]
pub struct Identifier {
    pub text: String,
}

impl Identifier {
    /// An identifier with the given text.
    pub fn new(text: &str) -> (r: Identifier)
        ensures
            r.text@ == text@,
    {
        Identifier { text: text.to_owned() }
    }

    /// A copy of the identifier.
    pub fn duplicate(&self) -> (r: Identifier)
        ensures
            r.text@ == self.text@,
    {
        Identifier { text: self.text.clone() }
    }
}

/// A string literal; its text is kept unquoted.
#[derive(Debug)]
pub struct StringLiteral {
    pub text: String,
}

impl StringLiteral {
    /// A string literal with the given text.
    pub fn new(text: String) -> (r: StringLiteral)
        ensures
            r.text@ == text@,
    {
        StringLiteral { text }
    }
}

/// A numeric literal, kept as written.
#[derive(Debug)]
pub struct NumericLiteral {
    pub text: String,
}

impl NumericLiteral {
    /// The decimal text of `i`.
    pub fn from_int(i: i64) -> (r: NumericLiteral)
        ensures
            r.text@ == int_text(i as int),
    {
        let mut text = String::new();
        push_int(&mut text, i);
        NumericLiteral { text }
    }
}

/// `name` or `property_name as name` in an import list.
#[derive(Debug)]
pub struct ImportSpecifier {
    pub name: Identifier,
    pub property_name: Option<Identifier>,
}

impl ImportSpecifier {
    /// `property_name as name` (or just `name`).
    pub fn new_full(name: Identifier, property_name: Option<Identifier>) -> (r: ImportSpecifier)
        ensures
            r.name.text@ == name.text@,
            r.property_name == property_name,
    {
        ImportSpecifier { name, property_name }
    }

    /// Imports `name` under its own name.
    pub fn new(name: Identifier) -> (r: ImportSpecifier)
        ensures
            r.name.text@ == name.text@,
            r.property_name is None,
    {
        ImportSpecifier { name, property_name: None }
    }
}

/// What an import statement brings in: a default name and named bindings.
#[derive(Debug)]
pub struct ImportClause {
    pub name: Option<Identifier>,
    pub named_bindings: Option<Vec<ImportSpecifier>>,
}

/// `import ... from "path"`.
#[derive(Debug)]
pub struct ImportDeclaration {
    pub import_clause: ImportClause,
    pub string_literal: StringLiteral,
}

impl ImportDeclaration {
    /// Imports the given bindings from `file_path`.
    pub fn import(specifiers: Vec<ImportSpecifier>, file_path: StringLiteral) -> (r: ImportDeclaration)
        ensures
            r.import_clause.name is None,
            r.import_clause.named_bindings == Some(specifiers),
            r.string_literal.text@ == file_path.text@,
    {
        ImportDeclaration {
            import_clause: ImportClause { name: None, named_bindings: Some(specifiers) },
            string_literal: file_path,
        }
    }
}

/// A declaration modifier.
#[derive(Debug, Clone, Copy, PartialEq, Eq, Structural)]
pub enum Modifier {
    Export,
}

/// The value of an enum member.
#[derive(Debug)]
pub enum EnumValue {
    String(StringLiteral),
    Number(NumericLiteral),
}

/// A member of an enum declaration.
#[derive(Debug)]
pub struct EnumMember {
    pub name: Identifier,
    pub value: Option<EnumValue>,
}

/// `enum Name { ... }`.
#[derive(Debug)]
pub struct EnumDeclaration {
    pub modifiers: Vec<Modifier>,
    pub name: Identifier,
    pub members: Vec<EnumMember>,
}

/// A union of types.
#[derive(Debug)]
pub struct UnionType {
    pub types: Vec<Type>,
}

/// A TypeScript type.
#[derive(Debug)]
pub enum Type {
    Number,
    Null,
    Never,
    Void,
    Undefined,
    Boolean,
    String,
    UnionType(UnionType),
    ArrayType(Box<Type>),
    Record(Box<Type>, Box<Type>),
    TypeReference(Vec<Identifier>),
}

/// Model of a TypeScript type.
pub enum TsTypeV {
    Number,
    Null,
    Never,
    Void,
    Undefined,
    Boolean,
    String,
    Union(Seq<TsTypeV>),
    Array(Box<TsTypeV>),
    Record(Box<TsTypeV>, Box<TsTypeV>),
    Reference(Seq<Seq<char>>),
}

pub open spec fn identifier_texts(ids: Seq<Identifier>) -> Seq<Seq<char>> {
    ids.map_values(|i: Identifier| i.text@)
}

pub open spec fn ts_type_view(t: Type) -> TsTypeV
    decreases t,
{
    match t {
        Type::Number => TsTypeV::Number,
        Type::Null => TsTypeV::Null,
        Type::Never => TsTypeV::Never,
        Type::Void => TsTypeV::Void,
        Type::Undefined => TsTypeV::Undefined,
        Type::Boolean => TsTypeV::Boolean,
        Type::String => TsTypeV::String,
        Type::UnionType(u) => TsTypeV::Union(ts_types_view(u.types@)),
        Type::ArrayType(e) => TsTypeV::Array(Box::new(ts_type_view(*e))),
        Type::Record(k, v) => TsTypeV::Record(Box::new(ts_type_view(*k)), Box::new(ts_type_view(*v))),
        Type::TypeReference(ids) => TsTypeV::Reference(identifier_texts(ids@)),
    }
}

pub open spec fn ts_types_view(s: Seq<Type>) -> Seq<TsTypeV>
    decreases s,
{
    if s.len() == 0 {
        Seq::empty()
    } else {
        ts_types_view(s.subrange(0, s.len() - 1)).push(ts_type_view(s[s.len() - 1]))
    }
}

impl View for Type {
    type V = TsTypeV;

    open spec fn view(&self) -> TsTypeV {
        ts_type_view(*self)
    }
}

pub proof fn lemma_ts_types_view(s: Seq<Type>)
    ensures
        ts_types_view(s).len() == s.len(),
        forall|i: int| 0 <= i < s.len() ==> #[trigger] ts_types_view(s)[i] == s[i]@,
    decreases s.len(),
{
    if s.len() > 0 {
        lemma_ts_types_view(s.subrange(0, s.len() - 1));
        assert forall|i: int| 0 <= i < s.len() implies #[trigger] ts_types_view(s)[i] == s[i]@ by {
            if i < s.len() - 1 {
                assert(s.subrange(0, s.len() - 1)[i] == s[i]);
            }
        }
    }
}

pub proof fn lemma_ts_types_view_push(s: Seq<Type>, t: Type)
    ensures
        ts_types_view(s.push(t)) == ts_types_view(s).push(t@),
{
    assert(s.push(t).subrange(0, s.len() as int) =~= s);
}

/// Adding a type to a union: `never` adds nothing, unions are flattened,
/// and a type already present is not added again.
pub open spec fn union_push(types: Seq<TsTypeV>, t: TsTypeV) -> Seq<TsTypeV>
    decreases t, 0int,
{
    match t {
        TsTypeV::Never => types,
        TsTypeV::Union(us) => union_push_all(types, us),
        _ => if types.contains(t) {
            types
        } else {
            types.push(t)
        },
    }
}

/// Adding each of `us` in turn.
pub open spec fn union_push_all(types: Seq<TsTypeV>, us: Seq<TsTypeV>) -> Seq<TsTypeV>
    decreases us, us.len(),
{
    if us.len() == 0 {
        types
    } else {
        union_push(union_push_all(types, us.subrange(0, us.len() - 1)), us[us.len() - 1])
    }
}

/// The type a union stands for: `never` when empty, its member when it has one.
pub open spec fn type_of_union(types: Seq<TsTypeV>) -> TsTypeV {
    if types.len() == 0 {
        TsTypeV::Never
    } else if types.len() == 1 {
        types[0]
    } else {
        TsTypeV::Union(types)
    }
}

/// Whether the type must be put in parentheses inside a union or an array.
pub open spec fn requires_wrap(t: TsTypeV) -> bool {
    t is Array || t is Union
}


/// Whether two identifier lists have the same texts.
pub fn same_identifiers(a: &Vec<Identifier>, b: &Vec<Identifier>) -> (r: bool)
    ensures
        r == (identifier_texts(a@) == identifier_texts(b@)),
{
    if a.len() != b.len() {
        proof {
            assert(identifier_texts(a@).len() != identifier_texts(b@).len());
        }
        return false;
    }
    let mut i: usize = 0;
    while i < a.len()
        invariant
            i <= a.len(),
            a.len() == b.len(),
            forall|j: int| 0 <= j < i ==> a@[j].text@ == b@[j].text@,
        decreases a.len() - i,
    {
        if a[i].text != b[i].text {
            proof {
                assert(identifier_texts(a@)[i as int] != identifier_texts(b@)[i as int]);
            }
            return false;
        }
        i = i + 1;
    }
    assert(identifier_texts(a@) =~= identifier_texts(b@));
    true
}

/// A copy of each identifier.
pub fn duplicate_identifiers(ids: &Vec<Identifier>) -> (r: Vec<Identifier>)
    ensures
        identifier_texts(r@) == identifier_texts(ids@),
{
    let mut r: Vec<Identifier> = Vec::new();
    let mut i: usize = 0;
    while i < ids.len()
        invariant
            i <= ids.len(),
            r.len() == i,
            forall|j: int| 0 <= j < i ==> #[trigger] r@[j].text@ == ids@[j].text@,
        decreases ids.len() - i,
    {
        r.push(ids[i].duplicate());
        i = i + 1;
    }
    assert(identifier_texts(r@) =~= identifier_texts(ids@));
    r
}

impl Type {
    /// A copy of the type.
    pub fn duplicate(&self) -> (r: Type)
        ensures
            r@ == self@,
        decreases self,
    {
        match self {
            Type::Number => Type::Number,
            Type::Null => Type::Null,
            Type::Never => Type::Never,
            Type::Void => Type::Void,
            Type::Undefined => Type::Undefined,
            Type::Boolean => Type::Boolean,
            Type::String => Type::String,
            Type::UnionType(u) => {
                let mut types: Vec<Type> = Vec::new();
                let mut i: usize = 0;
                proof {
                    assert forall|k: int| 0 <= k < u.types@.len() implies decreases_to!(*self => #[trigger] u.types@[k]) by {
                        assert(decreases_to!(*self => *u));
                    }
                }
                while i < u.types.len()
                    invariant
                        i <= u.types.len(),
                        forall|k: int| 0 <= k < u.types@.len() ==> decreases_to!(*self => #[trigger] u.types@[k]),
                        types.len() == i,
                        forall|j: int| 0 <= j < i ==> #[trigger] types@[j]@ == u.types@[j]@,
                    decreases u.types.len() - i,
                {
                    let t = u.types[i].duplicate();
                    types.push(t);
                    i = i + 1;
                }
                proof {
                    lemma_ts_types_view(types@);
                    lemma_ts_types_view(u.types@);
                    assert(ts_types_view(types@) =~= ts_types_view(u.types@));
                }
                Type::UnionType(UnionType { types })
            },
            Type::ArrayType(e) => Type::ArrayType(Box::new((**e).duplicate())),
            Type::Record(k, v) => Type::Record(Box::new((**k).duplicate()), Box::new((**v).duplicate())),
            Type::TypeReference(ids) => Type::TypeReference(duplicate_identifiers(ids)),
        }
    }

    /// Whether two types are the same.
    pub fn same(&self, other: &Type) -> (r: bool)
        ensures
            r == (self@ == other@),
        decreases self,
    {
        match (self, other) {
            (Type::Number, Type::Number) => true,
            (Type::Null, Type::Null) => true,
            (Type::Never, Type::Never) => true,
            (Type::Void, Type::Void) => true,
            (Type::Undefined, Type::Undefined) => true,
            (Type::Boolean, Type::Boolean) => true,
            (Type::String, Type::String) => true,
            (Type::UnionType(a), Type::UnionType(b)) => {
                proof {
                    lemma_ts_types_view(a.types@);
                    lemma_ts_types_view(b.types@);
                }
                if a.types.len() != b.types.len() {
                    proof {
                        assert(ts_types_view(a.types@).len() != ts_types_view(b.types@).len());
                    }
                    return false;
                }
                let mut i: usize = 0;
                proof {
                    assert forall|k: int| 0 <= k < a.types@.len() implies decreases_to!(*self => #[trigger] a.types@[k]) by {
                        assert(decreases_to!(*self => *a));
                    }
                }
                while i < a.types.len()
                    invariant
                        i <= a.types.len(),
                        forall|k: int| 0 <= k < a.types@.len() ==> decreases_to!(*self => #[trigger] a.types@[k]),
                        self@ == TsTypeV::Union(ts_types_view(a.types@)),
                        other@ == TsTypeV::Union(ts_types_view(b.types@)),
                        ts_types_view(a.types@).len() == a.types.len(),
                        ts_types_view(b.types@).len() == b.types.len(),
                        forall|k: int| 0 <= k < a.types.len() ==> #[trigger] ts_types_view(a.types@)[k] == a.types@[k]@,
                        forall|k: int| 0 <= k < b.types.len() ==> #[trigger] ts_types_view(b.types@)[k] == b.types@[k]@,
                        a.types.len() == b.types.len(),
                        forall|j: int| 0 <= j < i ==> #[trigger] a.types@[j]@ == b.types@[j]@,
                    decreases a.types.len() - i,
                {
                    if !a.types[i].same(&b.types[i]) {
                        proof {
                            assert(ts_types_view(a.types@)[i as int] != ts_types_view(b.types@)[i as int]);
                        }
                        return false;
                    }
                    i = i + 1;
                }
                assert(ts_types_view(a.types@) =~= ts_types_view(b.types@));
                true
            },
            (Type::ArrayType(a), Type::ArrayType(b)) => (**a).same(&**b),
            (Type::Record(ak, av), Type::Record(bk, bv)) => (**ak).same(&**bk) && (**av).same(&**bv),
            (Type::TypeReference(a), Type::TypeReference(b)) => same_identifiers(a, b),
            _ => false,
        }
    }

    /// A reference to the type named `name`.
    pub fn from_id(name: &str) -> (r: Type)
        ensures
            r@ == TsTypeV::Reference(seq![name@]),
    {
        let mut ids: Vec<Identifier> = Vec::new();
        ids.push(Identifier::new(name));
        proof {
            assert(identifier_texts(ids@) =~= seq![name@]);
        }
        Type::TypeReference(ids)
    }

    /// Whether the type is put in parentheses inside a union, or written
    /// `Array<..>` as an element type.
    pub fn requires_wrap_for_nesting(&self) -> (r: bool)
        ensures
            r == requires_wrap(self@),
    {
        match self {
            Type::ArrayType(_) => true,
            Type::UnionType(_) => true,
            _ => false,
        }
    }

    /// A reference to the type that `id` names.
    pub fn reference(id: Identifier) -> (r: Type)
        ensures
            r@ == TsTypeV::Reference(seq![id.text@]),
    {
        let mut ids: Vec<Identifier> = Vec::new();
        ids.push(id);
        proof {
            assert(identifier_texts(ids@) =~= seq![id.text@]);
        }
        Type::TypeReference(ids)
    }

    /// The union of `self` and `another`.
    pub fn or(&self, another: &Type) -> (r: Type)
        ensures
            r@ == type_of_union(union_push(union_push(Seq::empty(), self@), another@)),
    {
        let mut res = UnionType::new();
        res.push(self.duplicate());
        res.push(another.duplicate());
        Type::from_union(res)
    }

    /// An array of `t`.
    pub fn array(t: Type) -> (r: Type)
        ensures
            r@ == TsTypeV::Array(Box::new(t@)),
    {
        Type::ArrayType(Box::new(t))
    }

    /// The type a union stands for.
    pub fn from_union(union_type: UnionType) -> (r: Type)
        ensures
            r@ == type_of_union(ts_types_view(union_type.types@)),
    {
        let mut types = union_type.types;
        proof {
            lemma_ts_types_view(types@);
        }
        if types.len() == 0 {
            return Type::Never;
        }
        if types.len() == 1 {
            let res = types.pop().unwrap();
            return res;
        }
        Type::UnionType(UnionType { types })
    }
}

impl UnionType {
    /// The empty union.
    pub fn new() -> (r: UnionType)
        ensures
            r.types@.len() == 0,
    {
        UnionType { types: Vec::new() }
    }

    /// Adds `t` to the union (see `union_push`).
    pub fn push(&mut self, t: Type)
        ensures
            ts_types_view(final(self).types@) == union_push(ts_types_view(old(self).types@), t@),
    {
        push_type(&mut self.types, &t);
    }
}

/// Whether `t` occurs in `types`.
fn contains_type(types: &Vec<Type>, t: &Type) -> (r: bool)
    ensures
        r == ts_types_view(types@).contains(t@),
{
    proof {
        lemma_ts_types_view(types@);
    }
    let mut i: usize = 0;
    while i < types.len()
        invariant
            i <= types.len(),
            ts_types_view(types@).len() == types.len(),
            forall|k: int| 0 <= k < types.len() ==> #[trigger] ts_types_view(types@)[k] == types@[k]@,
            forall|j: int| 0 <= j < i ==> types@[j]@ != t@,
        decreases types.len() - i,
    {
        if types[i].same(t) {
            proof {
                assert(ts_types_view(types@)[i as int] == t@);
            }
            return true;
        }
        i = i + 1;
    }
    proof {
        if ts_types_view(types@).contains(t@) {
            let k = choose|k: int| 0 <= k < ts_types_view(types@).len() && ts_types_view(types@)[k] == t@;
            assert(types@[k]@ == t@);
        }
    }
    false
}

proof fn lemma_union_push_all_step(types: Seq<TsTypeV>, us: Seq<TsTypeV>, i: int)
    requires
        0 <= i < us.len(),
    ensures
        union_push_all(types, us.subrange(0, i + 1)) == union_push(union_push_all(types, us.subrange(0, i)), us[i]),
{
    assert(us.subrange(0, i + 1).subrange(0, i) =~= us.subrange(0, i));
}

fn push_type(types: &mut Vec<Type>, t: &Type)
    ensures
        ts_types_view(final(types)@) == union_push(ts_types_view(old(types)@), t@),
    decreases t,
{
    match t {
        Type::Never => {},
        Type::UnionType(u) => {
            let ghost start = ts_types_view(types@);
            let ghost us = ts_types_view(u.types@);
            proof {
                lemma_ts_types_view(u.types@);
                assert(us.subrange(0, 0) =~= Seq::<TsTypeV>::empty());
            }
            let mut i: usize = 0;
            proof {
                assert forall|k: int| 0 <= k < u.types@.len() implies decreases_to!(*t => #[trigger] u.types@[k]) by {
                    assert(decreases_to!(*t => *u));
                }
            }
            while i < u.types.len()
                invariant
                    i <= u.types.len(),
                    forall|k: int| 0 <= k < u.types@.len() ==> decreases_to!(*t => #[trigger] u.types@[k]),
                    us == ts_types_view(u.types@),
                    us.len() == u.types.len(),
                    forall|k: int| 0 <= k < u.types.len() ==> #[trigger] us[k] == u.types@[k]@,
                    ts_types_view(types@) == union_push_all(start, us.subrange(0, i as int)),
                decreases u.types.len() - i,
            {
                push_type(types, &u.types[i]);
                proof {
                    lemma_union_push_all_step(start, us, i as int);
                }
                i = i + 1;
            }
            assert(us.subrange(0, u.types.len() as int) =~= us);
        },
        _ => {
            if !contains_type(types, t) {
                let c = t.duplicate();
                proof {
                    lemma_ts_types_view_push(types@, c);
                }
                types.push(c);
            }
        },
    }
}


/// A property of an interface: `name: type` or `name?: type`.
#[derive(Debug)]
pub struct PropertySignature {
    pub name: Identifier,
    pub property_type: Type,
    pub optional: bool,
}

impl PropertySignature {
    /// A required property.
    pub fn new(name: &str, property_type: Type) -> (r: PropertySignature)
        ensures
            r.name.text@ == name@,
            r.property_type == property_type,
            !r.optional,
    {
        PropertySignature { name: Identifier::new(name), property_type, optional: false }
    }

    /// An optional property.
    pub fn new_optional(name: &str, property_type: Type) -> (r: PropertySignature)
        ensures
            r.name.text@ == name@,
            r.property_type == property_type,
            r.optional,
    {
        let mut res = PropertySignature::new(name, property_type);
        res.optional = true;
        res
    }
}

/// A member of an interface.
#[derive(Debug)]
pub enum InterfaceMember {
    PropertySignature(PropertySignature),
}

/// `interface Name { ... }`.
#[derive(Debug)]
pub struct InterfaceDeclaration {
    pub modifiers: Vec<Modifier>,
    pub name: Identifier,
    pub members: Vec<InterfaceMember>,
}

impl InterfaceDeclaration {
    /// An interface with no members and no modifiers.
    pub fn new(name: &str) -> (r: InterfaceDeclaration)
        ensures
            r.modifiers@ == Seq::<Modifier>::empty(),
            r.name.text@ == name@,
            r.members@.len() == 0,
    {
        InterfaceDeclaration { modifiers: Vec::new(), name: Identifier::new(name), members: Vec::new() }
    }

    /// An exported interface with no members.
    pub fn new_exported(name: &str) -> (r: InterfaceDeclaration)
        ensures
            r.modifiers@ == seq![Modifier::Export],
            r.name.text@ == name@,
            r.members@.len() == 0,
    {
        let mut r = InterfaceDeclaration::new(name);
        r.modifiers.push(Modifier::Export);
        r
    }
}

/// A function parameter.
#[derive(Debug)]
pub struct Parameter {
    pub name: Identifier,
    pub parameter_type: Type,
    pub optional: bool,
}

impl Parameter {
    /// A required parameter.
    pub fn new(name: &str, parameter_type: Type) -> (r: Parameter)
        ensures
            r.name.text@ == name@,
            r.parameter_type == parameter_type,
            !r.optional,
    {
        Parameter { name: Identifier::new(name), parameter_type, optional: false }
    }

    /// An optional parameter.
    pub fn new_optional(name: &str, parameter_type: Type) -> (r: Parameter)
        ensures
            r.name.text@ == name@,
            r.parameter_type == parameter_type,
            r.optional,
    {
        Parameter { name: Identifier::new(name), parameter_type, optional: true }
    }
}

/// A binary operator.
#[derive(Debug, Clone, Copy, PartialEq, Eq, Structural)]
pub enum BinaryOperator {
    LogicalOr,
    LogicalAnd,
    BinaryAnd,
    WeakNotEqual,
    LessThan,
    InstanceOf,
    StrictEqual,
    Plus,
    UnsignedRightShift,
    Assign,
}

/// How an operator is written.
pub open spec fn binary_operator_text(op: BinaryOperator) -> Seq<char> {
    match op {
        BinaryOperator::LogicalOr => "||"@,
        BinaryOperator::LogicalAnd => "&&"@,
        BinaryOperator::BinaryAnd => "&"@,
        BinaryOperator::WeakNotEqual => "!="@,
        BinaryOperator::LessThan => "<"@,
        BinaryOperator::InstanceOf => "instanceof"@,
        BinaryOperator::StrictEqual => "==="@,
        BinaryOperator::Plus => "+"@,
        BinaryOperator::UnsignedRightShift => ">>>"@,
        BinaryOperator::Assign => "="@,
    }
}

impl BinaryOperator {
    /// How the operator is written.
    pub fn text(self) -> (r: &'static str)
        ensures
            r@ == binary_operator_text(self),
    {
        match self {
            BinaryOperator::LogicalOr => "||",
            BinaryOperator::LogicalAnd => "&&",
            BinaryOperator::BinaryAnd => "&",
            BinaryOperator::WeakNotEqual => "!=",
            BinaryOperator::LessThan => "<",
            BinaryOperator::InstanceOf => "instanceof",
            BinaryOperator::StrictEqual => "===",
            BinaryOperator::Plus => "+",
            BinaryOperator::UnsignedRightShift => ">>>",
            BinaryOperator::Assign => "=",
        }
    }

    /// `left op right`.
    pub fn apply(self, left: Expression, right: Expression) -> (r: Expression)
        ensures
            r == Expression::BinaryExpression(
                BinaryExpression { operator: self, left: Box::new(left), right: Box::new(right) },
            ),
    {
        Expression::BinaryExpression(BinaryExpression { operator: self, left: Box::new(left), right: Box::new(right) })
    }
}

/// `left op right`.
#[derive(Debug)]
pub struct BinaryExpression {
    pub operator: BinaryOperator,
    pub left: Box<Expression>,
    pub right: Box<Expression>,
}

impl BinaryExpression {
    /// `undefined op undefined`, whose operands are set afterwards.
    pub fn new(operator: BinaryOperator) -> (r: Self)
        ensures
            r.operator == operator,
            *r.left == Expression::Undefined,
            *r.right == Expression::Undefined,
    {
        BinaryExpression {
            operator,
            left: Box::new(Expression::Undefined),
            right: Box::new(Expression::Undefined),
        }
    }

    /// Sets the left operand; the result borrows the expression for further settings.
    pub fn left(&mut self, expr: Expression) -> (r: &mut Self)
        ensures
            r.operator == old(self).operator,
            *r.left == expr,
            r.right == old(self).right,
            *final(self) == *final(r),
    {
        self.left = Box::new(expr);
        self
    }

    /// Sets the right operand; the result borrows the expression for further settings.
    pub fn right(&mut self, expr: Expression) -> (r: &mut Self)
        ensures
            r.operator == old(self).operator,
            r.left == old(self).left,
            *r.right == expr,
            *final(self) == *final(r),
    {
        self.right = Box::new(expr);
        self
    }
}

/// `callee(arguments)`.
#[derive(Debug)]
pub struct CallExpression {
    pub expression: Box<Expression>,
    pub arguments: Vec<Expression>,
}

/// Whether an expression is one of the literals `null`, `undefined`, `false`, `true`,
/// on which no property is ever read.
pub open spec fn is_bare_literal(e: Expression) -> bool {
    e is Null || e is Undefined || e is False || e is True
}

/// `object.name`.
#[derive(Debug)]
pub struct PropertyAccessExpression {
    pub expression: Box<Expression>,
    pub name: Identifier,
}

impl PropertyAccessExpression {
    /// Reads the property `name` of `expression`.
    pub fn new(expression: Expression, name: Identifier) -> (r: PropertyAccessExpression)
        ensures
            *r.expression == expression,
            r.name == name,
    {
        PropertyAccessExpression { expression: Box::new(expression), name }
    }

    /// Whether the object must be put in parentheses before `.name`.
    pub fn requires_wrap_for_prop(&self) -> (r: bool)
        requires
            !is_bare_literal(*self.expression),
        ensures
            r == wraps_for_property(*self.expression),
    {
        match &*self.expression {
            Expression::BinaryExpression(_) => true,
            Expression::ObjectLiteralExpression(_) => true,
            Expression::NumericLiteral(_) => true,
            Expression::PrefixUnaryExpression(_) => true,
            Expression::ConditionalExpression(_) => true,
            _ => false,
        }
    }
}

/// Whether an object is put in parentheses before a property access.
pub open spec fn wraps_for_property(e: Expression) -> bool {
    e is BinaryExpression || e is ObjectLiteralExpression || e is NumericLiteral
        || e is PrefixUnaryExpression || e is ConditionalExpression
}

/// A member of an object literal: `name: value`.
#[derive(Debug)]
pub enum ObjectLiteralMember {
    PropertyAssignment(Identifier, Expression),
}

/// `new callee(arguments)`.
#[derive(Debug)]
pub struct NewExpression {
    pub expression: Box<Expression>,
    pub arguments: Vec<Expression>,
}

impl NewExpression {
    /// `new expression()`.
    pub fn new(expression: Expression) -> (r: NewExpression)
        ensures
            *r.expression == expression,
            r.arguments@.len() == 0,
    {
        NewExpression { expression: Box::new(expression), arguments: Vec::new() }
    }

    /// Adds an argument.
    pub fn add_argument(&mut self, argument: Expression)
        ensures
            final(self).expression == old(self).expression,
            final(self).arguments@ == old(self).arguments@.push(argument),
    {
        self.arguments.push(argument);
    }
}

/// `object[argument]`.
#[derive(Debug)]
pub struct ElementAccessExpression {
    pub expression: Box<Expression>,
    pub argument: Box<Expression>,
}

/// A prefix operator.
#[derive(Debug, Clone, Copy, PartialEq, Eq, Structural)]
pub enum UnaryOperator {
    Increment,
    Not,
}

/// How a prefix operator is written.
pub open spec fn unary_operator_text(op: UnaryOperator) -> Seq<char> {
    match op {
        UnaryOperator::Increment => "++"@,
        UnaryOperator::Not => "!"@,
    }
}

impl UnaryOperator {
    /// How the operator is written.
    pub fn text(self) -> (r: &'static str)
        ensures
            r@ == unary_operator_text(self),
    {
        match self {
            UnaryOperator::Increment => "++",
            UnaryOperator::Not => "!",
        }
    }
}

/// `condition ? when_true : when_false`.
#[derive(Debug)]
pub struct ConditionalExpression {
    pub condition: Box<Expression>,
    pub when_true: Box<Expression>,
    pub when_false: Box<Expression>,
}

impl ConditionalExpression {
    /// `condition ? when_true : when_false`.
    pub fn new(condition: Expression, when_true: Expression, when_false: Expression) -> (r: ConditionalExpression)
        ensures
            *r.condition == condition,
            *r.when_true == when_true,
            *r.when_false == when_false,
    {
        ConditionalExpression {
            condition: Box::new(condition),
            when_true: Box::new(when_true),
            when_false: Box::new(when_false),
        }
    }
}

/// `op operand`.
#[derive(Debug)]
pub struct PrefixUnaryExpression {
    pub operator: UnaryOperator,
    pub operand: Box<Expression>,
}

impl PrefixUnaryExpression {
    /// `++operand`.
    pub fn increment(operand: Identifier) -> (r: PrefixUnaryExpression)
        ensures
            r.operator == UnaryOperator::Increment,
            *r.operand == Expression::Identifier(operand),
    {
        PrefixUnaryExpression { operator: UnaryOperator::Increment, operand: Box::new(Expression::Identifier(operand)) }
    }
}

/// A TypeScript expression.
#[derive(Debug)]
pub enum Expression {
    Identifier(Identifier),
    Null,
    Undefined,
    False,
    True,
    BinaryExpression(BinaryExpression),
    CallExpression(CallExpression),
    PropertyAccessExpression(PropertyAccessExpression),
    ParenthesizedExpression(Box<Expression>),
    ArrayLiteralExpression(Vec<Expression>),
    ObjectLiteralExpression(Vec<ObjectLiteralMember>),
    NewExpression(NewExpression),
    NumericLiteral(i64),
    StringLiteral(StringLiteral),
    ElementAccessExpression(ElementAccessExpression),
    PrefixUnaryExpression(PrefixUnaryExpression),
    ConditionalExpression(ConditionalExpression),
}

impl Expression {
    /// `condition ? when_true : when_false`.
    pub fn conditional(condition: Expression, when_true: Expression, when_false: Expression) -> (r: Expression)
        ensures
            r matches Expression::ConditionalExpression(c) && *c.condition == condition
                && *c.when_true == when_true && *c.when_false == when_false,
    {
        Expression::ConditionalExpression(ConditionalExpression::new(condition, when_true, when_false))
    }

    /// `return self`.
    pub fn into_return_statement(self) -> (r: Statement)
        ensures
            r == Statement::ReturnStatement(Some(self)),
    {
        Statement::ReturnStatement(Some(self))
    }

    /// `self.name`.
    pub fn into_prop(self, name: &str) -> (r: Expression)
        ensures
            r matches Expression::PropertyAccessExpression(p) && *p.expression == self && p.name.text@ == name@,
    {
        Expression::PropertyAccessExpression(PropertyAccessExpression::new(self, Identifier::new(name)))
    }

    /// `self.name(args)`.
    pub fn into_method_call(self, name: &str, args: Vec<Expression>) -> (r: Expression)
        ensures
            r matches Expression::CallExpression(c) && c.arguments == args
                && (*c.expression matches Expression::PropertyAccessExpression(p) && *p.expression == self
                && p.name.text@ == name@),
    {
        self.into_prop(name).into_call(args)
    }

    /// `self(args)`.
    pub fn into_call(self, args: Vec<Expression>) -> (r: Expression)
        ensures
            r == Expression::CallExpression(CallExpression { expression: Box::new(self), arguments: args }),
    {
        Expression::CallExpression(CallExpression { expression: Box::new(self), arguments: args })
    }

    /// `self[argument]`.
    pub fn into_element(self, argument: Expression) -> (r: Expression)
        ensures
            r == Expression::ElementAccessExpression(
                ElementAccessExpression { expression: Box::new(self), argument: Box::new(argument) },
            ),
    {
        Expression::ElementAccessExpression(ElementAccessExpression { expression: Box::new(self), argument: Box::new(argument) })
    }

    /// `!self`.
    pub fn not(self) -> (r: Expression)
        ensures
            r == Expression::PrefixUnaryExpression(
                PrefixUnaryExpression { operator: UnaryOperator::Not, operand: Box::new(self) },
            ),
    {
        Expression::PrefixUnaryExpression(PrefixUnaryExpression { operator: UnaryOperator::Not, operand: Box::new(self) })
    }

    /// `(self)`.
    pub fn into_parentheses(self) -> (r: Expression)
        ensures
            r == Expression::ParenthesizedExpression(Box::new(self)),
    {
        Expression::ParenthesizedExpression(Box::new(self))
    }

    /// `self && another`.
    pub fn and(self, another: Expression) -> (r: Expression)
        ensures
            r == Expression::BinaryExpression(
                BinaryExpression { operator: BinaryOperator::LogicalAnd, left: Box::new(self), right: Box::new(another) },
            ),
    {
        BinaryOperator::LogicalAnd.apply(self, another)
    }

    /// The identifier `name` as an expression.
    pub fn id(name: &str) -> (r: Expression)
        ensures
            r matches Expression::Identifier(i) && i.text@ == name@,
    {
        Expression::Identifier(Identifier::new(name))
    }
}

/// `let` or `const`.
#[derive(Debug, Clone, Copy, PartialEq, Eq, Structural)]
pub enum VariableKind {
    Let,
    Const,
}

/// `name = initializer`, with an optional type.
#[derive(Debug)]
pub struct VariableDeclaration {
    pub name: Identifier,
    pub initializer: Expression,
    pub var_type: Option<Type>,
}

/// `let a = .., b = ..` or `const ...`.
#[derive(Debug)]
pub struct VariableDeclarationList {
    pub kind: VariableKind,
    pub declarations: Vec<VariableDeclaration>,
}

impl VariableDeclarationList {
    /// `const name = initializer`.
    pub fn declare_const(name: Identifier, initializer: Expression) -> (r: VariableDeclarationList)
        ensures
            r.kind == VariableKind::Const,
            r.declarations@ == seq![VariableDeclaration { name, initializer, var_type: None }],
    {
        let mut declarations: Vec<VariableDeclaration> = Vec::new();
        declarations.push(VariableDeclaration { name, initializer, var_type: None });
        VariableDeclarationList { kind: VariableKind::Const, declarations }
    }

    /// `const name: t = initializer`.
    pub fn declare_typed_const(name: Identifier, t: Type, initializer: Expression) -> (r: VariableDeclarationList)
        ensures
            r.kind == VariableKind::Const,
            r.declarations@ == seq![VariableDeclaration { name, initializer, var_type: Some(t) }],
    {
        let mut declarations: Vec<VariableDeclaration> = Vec::new();
        declarations.push(VariableDeclaration { name, initializer, var_type: Some(t) });
        VariableDeclarationList { kind: VariableKind::Const, declarations }
    }

    /// `let name = initializer`.
    pub fn declare_let(name: Identifier, initializer: Expression) -> (r: VariableDeclarationList)
        ensures
            r.kind == VariableKind::Let,
            r.declarations@ == seq![VariableDeclaration { name, initializer, var_type: None }],
    {
        let mut declarations: Vec<VariableDeclaration> = Vec::new();
        declarations.push(VariableDeclaration { name, initializer, var_type: None });
        VariableDeclarationList { kind: VariableKind::Let, declarations }
    }
}

/// `if (expression) then_statement else else_statement`.
#[derive(Debug)]
pub struct IfStatement {
    pub expression: Expression,
    pub then_statement: Box<Statement>,
    pub else_statement: Option<Box<Statement>>,
}

/// `{ statements }`.
#[derive(Debug)]
pub struct Block {
    pub statements: Vec<Statement>,
}

impl Block {
    /// The empty block.
    pub fn new() -> (r: Block)
        ensures
            r.statements@.len() == 0,
    {
        Block { statements: Vec::new() }
    }

    /// Appends a statement.
    pub fn push_statement(&mut self, stmt: Statement)
        ensures
            final(self).statements@ == old(self).statements@.push(stmt),
    {
        self.statements.push(stmt);
    }
}

/// `for (initializer; condition; incrementor) statement`.
#[derive(Debug)]
pub struct ForStatement {
    pub initializer: VariableDeclarationList,
    pub condition: Expression,
    pub incrementor: Expression,
    pub statement: Box<Statement>,
}

impl ForStatement {
    /// `for (let iter_var = 0; iter_var < arr_expr.length; ++iter_var);`.
    pub fn for_each(iter_var: Identifier, arr_expr: Expression) -> (r: ForStatement)
        ensures
            r.initializer.kind == VariableKind::Let,
            r.initializer.declarations@.len() == 1,
            r.initializer.declarations@[0].name.text@ == iter_var.text@,
            r.initializer.declarations@[0].initializer == Expression::NumericLiteral(0),
            r.initializer.declarations@[0].var_type is None,
            r.condition matches Expression::BinaryExpression(b) && b.operator == BinaryOperator::LessThan
                && (*b.left matches Expression::Identifier(i) && i.text@ == iter_var.text@)
                && (*b.right matches Expression::PropertyAccessExpression(p) && *p.expression == arr_expr
                && p.name.text@ == "length"@),
            r.incrementor matches Expression::PrefixUnaryExpression(u) && u.operator == UnaryOperator::Increment
                && (*u.operand matches Expression::Identifier(i) && i.text@ == iter_var.text@),
            *r.statement == Statement::Empty,
    {
        let initializer = VariableDeclarationList::declare_let(iter_var.duplicate(), Expression::NumericLiteral(0));
        let length = PropertyAccessExpression::new(arr_expr, Identifier::new("length"));
        let condition = BinaryOperator::LessThan.apply(
            Expression::Identifier(iter_var.duplicate()),
            Expression::PropertyAccessExpression(length),
        );
        let incrementor = Expression::PrefixUnaryExpression(PrefixUnaryExpression::increment(iter_var));
        ForStatement { initializer, condition, incrementor, statement: Box::new(Statement::Empty) }
    }
}

/// `while (condition) { ... }`.
#[derive(Debug)]
pub struct WhileStatement {
    pub condition: Expression,
    pub statement: Block,
}

impl WhileStatement {
    /// A loop with an empty body.
    pub fn new(condition: Expression) -> (r: WhileStatement)
        ensures
            r.condition == condition,
            r.statement.statements@.len() == 0,
    {
        WhileStatement { condition, statement: Block::new() }
    }
}

/// `case expression: statements`.
#[derive(Debug)]
pub struct CaseClause {
    pub expression: Expression,
    pub statements: Vec<Statement>,
}

impl CaseClause {
    /// A case with no statements.
    pub fn new(expression: Expression) -> (r: CaseClause)
        ensures
            r.expression == expression,
            r.statements@.len() == 0,
    {
        CaseClause { expression, statements: Vec::new() }
    }
}

/// `default: statements`.
#[derive(Debug)]
pub struct DefaultClause {
    pub statements: Vec<Statement>,
}

impl DefaultClause {
    /// A default clause with no statements.
    pub fn new() -> (r: DefaultClause)
        ensures
            r.statements@.len() == 0,
    {
        DefaultClause { statements: Vec::new() }
    }
}

/// `switch (expression) { cases default }`.
#[derive(Debug)]
pub struct SwitchStatement {
    pub expression: Expression,
    pub cases: Vec<CaseClause>,
    pub default: DefaultClause,
}

impl SwitchStatement {
    /// A switch with no cases.
    pub fn new(expression: Expression, default: DefaultClause) -> (r: SwitchStatement)
        ensures
            r.expression == expression,
            r.cases@.len() == 0,
            r.default == default,
    {
        SwitchStatement { expression, cases: Vec::new(), default }
    }

    /// Appends a case.
    pub fn add_case(&mut self, case: CaseClause)
        ensures
            final(self).expression == old(self).expression,
            final(self).default == old(self).default,
            final(self).cases@ == old(self).cases@.push(case),
    {
        self.cases.push(case);
    }
}

/// A TypeScript statement.
#[derive(Debug)]
pub enum Statement {
    Empty,
    ImportDeclaration(Box<ImportDeclaration>),
    EnumDeclaration(Box<EnumDeclaration>),
    InterfaceDeclaration(Box<InterfaceDeclaration>),
    FunctionDeclaration(Box<FunctionDeclaration>),
    ReturnStatement(Option<Expression>),
    VariableStatement(VariableDeclarationList),
    IfStatement(IfStatement),
    Block(Block),
    Expression(Expression),
    For(Box<ForStatement>),
    While(Box<WhileStatement>),
    Break,
    Switch(Box<SwitchStatement>),
}

/// `function name(parameters): return_type { body }`.
#[derive(Debug)]
pub struct FunctionDeclaration {
    pub modifiers: Vec<Modifier>,
    pub name: Identifier,
    pub parameters: Vec<Parameter>,
    pub return_type: Type,
    pub body: Block,
}

impl FunctionDeclaration {
    /// A function with no parameters, returning `never`, with an empty body.
    pub fn new(name: &str) -> (r: FunctionDeclaration)
        ensures
            r.modifiers@.len() == 0,
            r.name.text@ == name@,
            r.parameters@.len() == 0,
            r.return_type@ == TsTypeV::Never,
            r.body.statements@.len() == 0,
    {
        FunctionDeclaration {
            modifiers: Vec::new(),
            name: Identifier::new(name),
            parameters: Vec::new(),
            return_type: Type::Never,
            body: Block::new(),
        }
    }

    /// The same, exported.
    pub fn new_exported(name: &str) -> (r: FunctionDeclaration)
        ensures
            r.modifiers@ == seq![Modifier::Export],
            r.name.text@ == name@,
            r.parameters@.len() == 0,
            r.return_type@ == TsTypeV::Never,
            r.body.statements@.len() == 0,
    {
        let mut res = FunctionDeclaration::new(name);
        res.modifiers.push(Modifier::Export);
        res
    }

    /// Appends a parameter.
    pub fn add_param(&mut self, param: Parameter)
        ensures
            final(self).modifiers == old(self).modifiers,
            final(self).name == old(self).name,
            final(self).parameters@ == old(self).parameters@.push(param),
            final(self).return_type == old(self).return_type,
            final(self).body == old(self).body,
    {
        self.parameters.push(param);
    }

    /// Sets the return type.
    pub fn set_return_type(&mut self, return_type: Type)
        ensures
            final(self).modifiers == old(self).modifiers,
            final(self).name == old(self).name,
            final(self).parameters == old(self).parameters,
            final(self).return_type == return_type,
            final(self).body == old(self).body,
    {
        self.return_type = return_type;
    }

    /// Appends a statement to the body.
    pub fn push_statement(&mut self, stmt: Statement)
        ensures
            final(self).modifiers == old(self).modifiers,
            final(self).name == old(self).name,
            final(self).parameters == old(self).parameters,
            final(self).return_type == old(self).return_type,
            final(self).body.statements@ == old(self).body.statements@.push(stmt),
    {
        self.body.statements.push(stmt);
    }
}

/// A TypeScript module: its name and statements.
#[derive(Debug)]
pub struct File {
    pub name: String,
    pub statements: Vec<Statement>,
}

impl File {
    /// An empty module.
    pub fn new(name: String) -> (r: File)
        ensures
            r.name@ == name@,
            r.statements@.len() == 0,
    {
        File { name, statements: Vec::new() }
    }

    /// Appends a statement.
    pub fn push_statement(&mut self, stmt: Statement)
        ensures
            final(self).name == old(self).name,
            final(self).statements@ == old(self).statements@.push(stmt),
    {
        self.statements.push(stmt);
    }
}

/// An entry of a folder.
#[derive(Debug)]
pub enum FolderEntry {
    File(Box<File>),
    Folder(Box<Folder>),
}

/// A folder of modules.
#[derive(Debug)]
pub struct Folder {
    pub name: String,
    pub entries: Vec<FolderEntry>,
}

impl Folder {
    /// An empty folder.
    pub fn new(name: String) -> (r: Folder)
        ensures
            r.name@ == name@,
            r.entries@.len() == 0,
    {
        Folder { name, entries: Vec::new() }
    }

    /// Appends a module.
    pub fn push_file(&mut self, file: File)
        ensures
            final(self).name == old(self).name,
            final(self).entries@ == old(self).entries@.push(FolderEntry::File(Box::new(file))),
    {
        self.entries.push(FolderEntry::File(Box::new(file)));
    }

    /// Appends a sub-folder.
    pub fn push_folder(&mut self, folder: Folder)
        ensures
            final(self).name == old(self).name,
            final(self).entries@ == old(self).entries@.push(FolderEntry::Folder(Box::new(folder))),
    {
        self.entries.push(FolderEntry::Folder(Box::new(folder)));
    }
}

} // verus!
