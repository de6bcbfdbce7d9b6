//! Names and helpers shared by the generators of modules.
use vstd::prelude::*;
use crate::compiler::ast::{Expression, Identifier, NewExpression, PropertyAccessExpression, StringLiteral, CallExpression};
use crate::package::{FieldTypeReference, Type, TypeV, TypeRefV};

verus! {

/// The module the generated code imports its reader and writer from.
pub const PROTOBUF_MODULE: &'static str = "protobufjs/minimal";

/// The name of each generated encoding function.
pub const ENCODE_FUNCTION_NAME: &'static str = "encode";

/// The name of each generated decoding function.
pub const DECODE_FUNCTION_NAME: &'static str = "decode";

/// The name of the interface that the encoding function of a message takes.
pub open spec fn encode_type_name_of(name: Seq<char>) -> Seq<char> {
    "I"@ + name
}

/// The name of the interface that the encoding function of a message takes: `I<name>`.
pub fn message_name_to_encode_type_name(name: &str) -> (r: String)
    ensures
        r@ == encode_type_name_of(name@),
{
    let mut r = String::new();
    r.append("I");
    r.append(name);
    r
}

/// `Object.hasOwnProperty.call(obj_expr, "<id>")`.
pub fn has_property(obj_expr: Expression, id: &Identifier) -> (r: Expression)
    ensures
        r matches Expression::CallExpression(c) && c.arguments@.len() == 2 && c.arguments@[0] == obj_expr
            && (c.arguments@[1] matches Expression::StringLiteral(s) && s.text@ == id.text@)
            && (*c.expression matches Expression::PropertyAccessExpression(p1) && p1.name.text@ == "call"@
            && (*p1.expression matches Expression::PropertyAccessExpression(p2) && p2.name.text@ == "hasOwnProperty"@
            && (*p2.expression matches Expression::Identifier(o) && o.text@ == "Object"@))),
{
    let object = Expression::Identifier(Identifier::new("Object"));
    let has_own = Expression::PropertyAccessExpression(PropertyAccessExpression::new(object, Identifier::new("hasOwnProperty")));
    let call = Expression::PropertyAccessExpression(PropertyAccessExpression::new(has_own, Identifier::new("call")));
    let mut arguments: Vec<Expression> = Vec::new();
    arguments.push(obj_expr);
    arguments.push(Expression::StringLiteral(StringLiteral::new(id.text.clone())));
    Expression::CallExpression(CallExpression { expression: Box::new(call), arguments })
}

/// The kind of initial value a field gets.
pub enum DefaultValue {
    Null,
    EmptyArray,
    EmptyObject,
    False,
    NewBytes,
    Zero,
    EmptyString,
}

/// Whether an expression is the initial value of that kind: `null`, `[]`, `{}`,
/// `false`, `new Uint8Array()`, `0` or `""`.
pub open spec fn is_default(e: Expression, d: DefaultValue) -> bool {
    match d {
        DefaultValue::Null => e is Null,
        DefaultValue::EmptyArray => e matches Expression::ArrayLiteralExpression(v) && v@.len() == 0,
        DefaultValue::EmptyObject => e matches Expression::ObjectLiteralExpression(v) && v@.len() == 0,
        DefaultValue::False => e is False,
        DefaultValue::NewBytes => e matches Expression::NewExpression(n) && n.arguments@.len() == 0
            && (*n.expression matches Expression::Identifier(i) && i.text@ == "Uint8Array"@),
        DefaultValue::Zero => e == Expression::NumericLiteral(0),
        DefaultValue::EmptyString => e matches Expression::StringLiteral(s) && s.text@.len() == 0,
    }
}

/// The initial value of a field of a schema type.
pub open spec fn default_of_ref(t: TypeRefV) -> DefaultValue {
    match t {
        TypeRefV::IdPath(_) => DefaultValue::Null,
        TypeRefV::Repeated(_) => DefaultValue::EmptyArray,
        TypeRefV::MapOf(_, _) => DefaultValue::EmptyObject,
        TypeRefV::Bool => DefaultValue::False,
        TypeRefV::Bytes => DefaultValue::NewBytes,
        TypeRefV::String => DefaultValue::EmptyString,
        _ => DefaultValue::Zero,
    }
}

/// The initial value of a field of a resolved type.
pub open spec fn default_of(t: TypeV) -> DefaultValue {
    match t {
        TypeV::Enum(_) => DefaultValue::Null,
        TypeV::Message(_) => DefaultValue::Null,
        TypeV::Repeated(_) => DefaultValue::EmptyArray,
        TypeV::MapOf(_, _) => DefaultValue::EmptyObject,
        TypeV::Bool => DefaultValue::False,
        TypeV::Bytes => DefaultValue::NewBytes,
        TypeV::String => DefaultValue::EmptyString,
        _ => DefaultValue::Zero,
    }
}

/// An expression of the given kind of initial value.
fn default_expression_of(d: &DefaultValue) -> (r: Expression)
    ensures
        is_default(r, *d),
{
    match d {
        DefaultValue::Null => Expression::Null,
        DefaultValue::EmptyArray => Expression::ArrayLiteralExpression(Vec::new()),
        DefaultValue::EmptyObject => Expression::ObjectLiteralExpression(Vec::new()),
        DefaultValue::False => Expression::False,
        DefaultValue::NewBytes => Expression::NewExpression(NewExpression::new(Expression::Identifier(Identifier::new("Uint8Array")))),
        DefaultValue::Zero => Expression::NumericLiteral(0),
        DefaultValue::EmptyString => Expression::StringLiteral(StringLiteral::new(String::new())),
    }
}

/// The initial value of a field of a schema type.
pub fn get_default_value(field_type: &FieldTypeReference) -> (r: Expression)
    ensures
        is_default(r, default_of_ref(field_type@)),
{
    let d = match field_type {
        FieldTypeReference::IdPath(_) => DefaultValue::Null,
        FieldTypeReference::Repeated(_) => DefaultValue::EmptyArray,
        FieldTypeReference::MapOf(_, _) => DefaultValue::EmptyObject,
        FieldTypeReference::Bool => DefaultValue::False,
        FieldTypeReference::Bytes => DefaultValue::NewBytes,
        FieldTypeReference::String => DefaultValue::EmptyString,
        _ => DefaultValue::Zero,
    };
    default_expression_of(&d)
}

/// The initial value of a field of a resolved type.
pub fn default_expression(field_type: &Type) -> (r: Expression)
    ensures
        is_default(r, default_of(field_type@)),
{
    let d = match field_type {
        Type::Enum(_) => DefaultValue::Null,
        Type::Message(_) => DefaultValue::Null,
        Type::Repeated(_) => DefaultValue::EmptyArray,
        Type::MapOf(_, _) => DefaultValue::EmptyObject,
        Type::Bool => DefaultValue::False,
        Type::Bytes => DefaultValue::NewBytes,
        Type::String => DefaultValue::EmptyString,
        _ => DefaultValue::Zero,
    };
    default_expression_of(&d)
}

} // verus!
