//! The text of the TypeScript syntax tree.
use vstd::prelude::*;
use crate::text::{join, views, push_joined, push_char, int_text, push_int};
use crate::compiler::ast::{Expression, ObjectLiteralMember, BinaryExpression, binary_operator_text, unary_operator_text, wraps_for_property, is_bare_literal, Statement, Block, VariableDeclarationList, VariableDeclaration, VariableKind, Parameter, FunctionDeclaration, CaseClause, File, Modifier, TsTypeV, Type, UnionType, Identifier, identifier_texts, ts_types_view, lemma_ts_types_view, requires_wrap, ImportSpecifier, ImportClause, ImportDeclaration, EnumMember, EnumValue, EnumDeclaration, InterfaceMember, InterfaceDeclaration};
use crate::compiler::names::{safe_id, reserved_word, js_string, is_safe_id, is_reserved, to_js_string};

verus! {

/// The modifiers, each followed by a space.
pub open spec fn modifiers_text(ms: Seq<Modifier>) -> Seq<char>
    decreases ms.len(),
{
    if ms.len() == 0 {
        Seq::empty()
    } else {
        modifiers_text(ms.drop_last()) + "export "@
    }
}

/// Appends the modifiers.
pub fn push_modifiers(res: &mut String, ms: &Vec<Modifier>)
    ensures
        final(res)@ == old(res)@ + modifiers_text(ms@),
{
    let ghost start = res@;
    let mut i: usize = 0;
    while i < ms.len()
        invariant
            i <= ms.len(),
            res@ == start + modifiers_text(ms@.take(i as int)),
        decreases ms.len() - i,
    {
        match ms[i] {
            Modifier::Export => res.append("export "),
        }
        assert(ms@.take(i + 1).drop_last() =~= ms@.take(i as int));
        i = i + 1;
    }
    assert(ms@.take(ms.len() as int) =~= ms@);
}

/// The text of a type.
pub open spec fn type_text(t: TsTypeV) -> Seq<char>
    decreases t, 0int,
{
    match t {
        TsTypeV::Boolean => "boolean"@,
        TsTypeV::Number => "number"@,
        TsTypeV::String => "string"@,
        TsTypeV::Null => "null"@,
        TsTypeV::Void => "void"@,
        TsTypeV::Never => "never"@,
        TsTypeV::Undefined => "undefined"@,
        TsTypeV::Union(ts) => join(union_member_texts(ts), " | "@),
        TsTypeV::Array(e) => if requires_wrap(*e) {
            "Array<"@ + type_text(*e) + ">"@
        } else {
            type_text(*e) + "[]"@
        },
        TsTypeV::Record(k, v) => "Record<"@ + type_text(*k) + ", "@ + type_text(*v) + ">"@,
        TsTypeV::Reference(ids) => join(ids, "."@),
    }
}

/// The texts of the members of a union, those that need it in parentheses.
pub open spec fn union_member_texts(ts: Seq<TsTypeV>) -> Seq<Seq<char>>
    decreases ts, ts.len(),
{
    if ts.len() == 0 {
        Seq::empty()
    } else {
        let t = ts[ts.len() - 1];
        let text = if requires_wrap(t) { "("@ + type_text(t) + ")"@ } else { type_text(t) };
        union_member_texts(ts.subrange(0, ts.len() - 1)).push(text)
    }
}

/// The text of a type.
pub fn render_type(t: &Type) -> (r: String)
    ensures
        r@ == type_text(t@),
    decreases t,
{
    match t {
        Type::Boolean => "boolean".to_string(),
        Type::Number => "number".to_string(),
        Type::String => "string".to_string(),
        Type::Null => "null".to_string(),
        Type::Void => "void".to_string(),
        Type::Never => "never".to_string(),
        Type::Undefined => "undefined".to_string(),
        Type::UnionType(u) => {
            let ghost us = ts_types_view(u.types@);
            proof {
                lemma_ts_types_view(u.types@);
                assert forall|k: int| 0 <= k < u.types@.len() implies decreases_to!(*t => #[trigger] u.types@[k]) by {
                    assert(decreases_to!(*t => *u));
                }
            }
            let mut parts: Vec<String> = Vec::new();
            let mut i: usize = 0;
            while i < u.types.len()
                invariant
                    i <= u.types.len(),
                    forall|k: int| 0 <= k < u.types@.len() ==> decreases_to!(*t => #[trigger] u.types@[k]),
                    us == ts_types_view(u.types@),
                    us.len() == u.types.len(),
                    forall|k: int| 0 <= k < u.types.len() ==> #[trigger] us[k] == u.types@[k]@,
                    views(parts@) == union_member_texts(us.subrange(0, i as int)),
                decreases u.types.len() - i,
            {
                let member = &u.types[i];
                let text = render_type(member);
                let piece = if member.requires_wrap_for_nesting() {
                    let mut w = String::new();
                    w.append("(");
                    w.append(text.as_str());
                    w.append(")");
                    w
                } else {
                    text
                };
                proof {
                    assert(us.subrange(0, i + 1).subrange(0, i as int) =~= us.subrange(0, i as int));
                    assert(views(parts@.push(piece)) =~= views(parts@).push(piece@));
                }
                parts.push(piece);
                i = i + 1;
            }
            assert(us.subrange(0, u.types.len() as int) =~= us);
            let mut res = String::new();
            push_joined(&mut res, &parts, " | ");
            res
        },
        Type::ArrayType(e) => {
            let text = render_type(&**e);
            let mut res = String::new();
            if (**e).requires_wrap_for_nesting() {
                res.append("Array<");
                res.append(text.as_str());
                res.append(">");
            } else {
                res.append(text.as_str());
                res.append("[]");
            }
            res
        },
        Type::Record(k, v) => {
            let kt = render_type(&**k);
            let vt = render_type(&**v);
            let mut res = String::new();
            res.append("Record<");
            res.append(kt.as_str());
            res.append(", ");
            res.append(vt.as_str());
            res.append(">");
            res
        },
        Type::TypeReference(ids) => {
            let mut parts: Vec<String> = Vec::new();
            let mut i: usize = 0;
            while i < ids.len()
                invariant
                    i <= ids.len(),
                    views(parts@) == identifier_texts(ids@).take(i as int),
                decreases ids.len() - i,
            {
                let ghost prev = views(parts@);
                let piece = ids[i].text.clone();
                parts.push(piece);
                assert(views(parts@) =~= prev.push(piece@));
                assert(views(parts@) =~= identifier_texts(ids@).take(i + 1));
                i = i + 1;
            }
            assert(identifier_texts(ids@).take(ids.len() as int) =~= identifier_texts(ids@));
            let mut res = String::new();
            push_joined(&mut res, &parts, ".");
            res
        },
    }
}

/// The text of an import specifier.
pub open spec fn specifier_text(sp: ImportSpecifier) -> Seq<char> {
    match sp.property_name {
        Some(p) => p.text@ + " as "@ + sp.name.text@,
        None => sp.name.text@,
    }
}

/// The texts of a list of import specifiers.
pub open spec fn specifier_texts(sps: Seq<ImportSpecifier>) -> Seq<Seq<char>> {
    sps.map_values(|sp: ImportSpecifier| specifier_text(sp))
}

/// What an import brings in: the default name, then the named bindings in braces.
pub open spec fn import_parts(c: ImportClause) -> Seq<Seq<char>> {
    let named: Seq<Seq<char>> = match c.name {
        Some(n) => seq![n.text@],
        None => Seq::empty(),
    };
    match c.named_bindings {
        Some(b) => named.push("{ "@ + join(specifier_texts(b@), ", "@) + " }"@),
        None => named,
    }
}

/// `import <parts> from "<path>"`.
pub open spec fn import_text(d: ImportDeclaration) -> Seq<char> {
    "import "@ + join(import_parts(d.import_clause), ", "@) + " from \""@ + d.string_literal.text@ + "\""@
}

/// The text of an import declaration.
pub fn render_import(d: &ImportDeclaration) -> (r: String)
    ensures
        r@ == import_text(*d),
{
    let mut imports: Vec<String> = Vec::new();
    match &d.import_clause.name {
        Some(n) => imports.push(n.text.clone()),
        None => {},
    }
    assert(views(imports@) =~= match d.import_clause.name {
        Some(n) => seq![n.text@],
        None => Seq::<Seq<char>>::empty(),
    });
    match &d.import_clause.named_bindings {
        Some(bindings) => {
            let mut pairs: Vec<String> = Vec::new();
            let mut i: usize = 0;
            while i < bindings.len()
                invariant
                    i <= bindings.len(),
                    views(pairs@) == specifier_texts(bindings@).take(i as int),
                decreases bindings.len() - i,
            {
                let sp = &bindings[i];
                let pair = match &sp.property_name {
                    Some(p) => {
                        let mut t = p.text.clone();
                        t.append(" as ");
                        t.append(sp.name.text.as_str());
                        assert(t@ =~= p.text@ + " as "@ + sp.name.text@);
                        t
                    },
                    None => sp.name.text.clone(),
                };
                assert(pair@ == specifier_text(*sp));
                let ghost prev = views(pairs@);
                pairs.push(pair);
                assert(views(pairs@) =~= prev.push(pair@));
                assert(views(pairs@) =~= specifier_texts(bindings@).take(i + 1));
                i = i + 1;
            }
            assert(specifier_texts(bindings@).take(bindings.len() as int) =~= specifier_texts(bindings@));
            let mut braces = String::new();
            braces.append("{ ");
            push_joined(&mut braces, &pairs, ", ");
            braces.append(" }");
            assert(braces@ =~= "{ "@ + join(specifier_texts(bindings@), ", "@) + " }"@);
            let ghost before = views(imports@);
            imports.push(braces);
            assert(views(imports@) =~= before.push(braces@));
        },
        None => {},
    }
    assert(views(imports@) == import_parts(d.import_clause));
    let mut res = String::new();
    res.append("import ");
    push_joined(&mut res, &imports, ", ");
    res.append(" from \"");
    res.append(d.string_literal.text.as_str());
    res.append("\"");
    assert(res@ =~= import_text(*d));
    res
}

/// The text of one enum member, with its line end.
pub open spec fn enum_member_text(m: EnumMember) -> Seq<char> {
    let value: Seq<char> = match m.value {
        Some(EnumValue::String(s)) => " = \""@ + s.text@ + "\""@,
        Some(EnumValue::Number(n)) => " = "@ + n.text@,
        None => Seq::empty(),
    };
    "  "@ + m.name.text@ + value + ",\n"@
}

/// The members of an enum, one per line.
pub open spec fn enum_members_text(ms: Seq<EnumMember>) -> Seq<char>
    decreases ms.len(),
{
    if ms.len() == 0 {
        Seq::empty()
    } else {
        enum_members_text(ms.drop_last()) + enum_member_text(ms.last())
    }
}

/// The text of an enum declaration.
pub open spec fn enum_text(d: EnumDeclaration) -> Seq<char> {
    modifiers_text(d.modifiers@) + "enum "@ + d.name.text@ + if d.members@.len() == 0 {
        "{}"@
    } else {
        " {\n"@ + enum_members_text(d.members@) + "}"@
    }
}

/// The text of an enum declaration.
pub fn render_enum(d: &EnumDeclaration) -> (r: String)
    ensures
        r@ == enum_text(*d),
{
    let mut res = String::new();
    push_modifiers(&mut res, &d.modifiers);
    res.append("enum ");
    res.append(d.name.text.as_str());
    if d.members.len() == 0 {
        res.append("{}");
        return res;
    }
    res.append(" {\n");
    let ghost start = res@;
    let mut i: usize = 0;
    while i < d.members.len()
        invariant
            i <= d.members.len(),
            res@ == start + enum_members_text(d.members@.take(i as int)),
        decreases d.members.len() - i,
    {
        let member = &d.members[i];
        let ghost before = res@;
        res.append("  ");
        res.append(member.name.text.as_str());
        match &member.value {
            Some(EnumValue::String(s)) => {
                res.append(" = \"");
                res.append(s.text.as_str());
                res.append("\"");
            },
            Some(EnumValue::Number(n)) => {
                res.append(" = ");
                res.append(n.text.as_str());
            },
            None => {},
        }
        res.append(",\n");
        assert(res@ =~= before + enum_member_text(*member));
        assert(d.members@.take(i + 1).drop_last() =~= d.members@.take(i as int));
        assert(d.members@.take(i + 1).last() == *member);
        i = i + 1;
    }
    assert(d.members@.take(d.members.len() as int) =~= d.members@);
    res.append("}");
    assert(res@ =~= start + enum_members_text(d.members@) + "}"@);
    res
}

/// The line of an interface member.
pub open spec fn interface_member_text(m: InterfaceMember) -> Seq<char> {
    match m {
        InterfaceMember::PropertySignature(p) => "  "@ + p.name.text@ + (if p.optional { "?"@ } else { Seq::empty() })
            + ": "@ + type_text(p.property_type@) + "\n"@,
    }
}

/// The members of an interface, one per line.
pub open spec fn interface_members_text(ms: Seq<InterfaceMember>) -> Seq<char>
    decreases ms.len(),
{
    if ms.len() == 0 {
        Seq::empty()
    } else {
        interface_members_text(ms.drop_last()) + interface_member_text(ms.last())
    }
}

/// The text of an interface declaration.
pub open spec fn interface_text(d: InterfaceDeclaration) -> Seq<char> {
    modifiers_text(d.modifiers@) + "interface "@ + d.name.text@ + if d.members@.len() == 0 {
        "{}"@
    } else {
        " {\n"@ + interface_members_text(d.members@) + "}"@
    }
}

/// The text of an interface declaration.
pub fn render_interface(d: &InterfaceDeclaration) -> (r: String)
    ensures
        r@ == interface_text(*d),
{
    let mut res = String::new();
    push_modifiers(&mut res, &d.modifiers);
    res.append("interface ");
    res.append(d.name.text.as_str());
    if d.members.len() == 0 {
        res.append("{}");
        return res;
    }
    res.append(" {\n");
    let ghost start = res@;
    let mut i: usize = 0;
    while i < d.members.len()
        invariant
            i <= d.members.len(),
            res@ == start + interface_members_text(d.members@.take(i as int)),
        decreases d.members.len() - i,
    {
        let ghost before = res@;
        match &d.members[i] {
            InterfaceMember::PropertySignature(prop) => {
                res.append("  ");
                res.append(prop.name.text.as_str());
                if prop.optional {
                    res.append("?");
                }
                res.append(": ");
                let type_str = render_type(&prop.property_type);
                res.append(type_str.as_str());
                res.append("\n");
            },
        }
        assert(res@ =~= before + interface_member_text(d.members@[i as int]));
        assert(d.members@.take(i + 1).drop_last() =~= d.members@.take(i as int));
        assert(d.members@.take(i + 1).last() == d.members@[i as int]);
        i = i + 1;
    }
    assert(d.members@.take(d.members.len() as int) =~= d.members@);
    res.append("}");
    res
}


/// What follows an object to read its property `name`: `.name`, or `["name"]`
/// where the name is not a plain identifier or is a reserved word.
pub open spec fn property_suffix(name: Seq<char>) -> Seq<char> {
    if safe_id(name) && !reserved_word(name) {
        "."@ + name
    } else {
        "["@ + js_string(name) + "]"@
    }
}

/// The text of an expression.
pub open spec fn expr_text(e: Expression) -> Seq<char>
    decreases e, 0int,
{
    match e {
        Expression::Identifier(i) => i.text@,
        Expression::Null => "null"@,
        Expression::Undefined => "undefined"@,
        Expression::False => "false"@,
        Expression::True => "true"@,
        Expression::BinaryExpression(b) => expr_text(*b.left) + " "@ + binary_operator_text(b.operator) + " "@
            + expr_text(*b.right),
        Expression::CallExpression(c) => expr_text(*c.expression) + "("@ + join(exprs_texts(c.arguments@), ", "@)
            + ")"@,
        Expression::PropertyAccessExpression(p) => (if wraps_for_property(*p.expression) {
            "("@ + expr_text(*p.expression) + ")"@
        } else {
            expr_text(*p.expression)
        }) + property_suffix(p.name.text@),
        Expression::ParenthesizedExpression(x) => "("@ + expr_text(*x) + ")"@,
        Expression::ArrayLiteralExpression(xs) => "["@ + join(exprs_texts(xs@), ", "@) + "]"@,
        Expression::ObjectLiteralExpression(ms) => if ms@.len() == 0 {
            "{}"@
        } else {
            "{ "@ + join(members_texts(ms@), ", "@) + " }"@
        },
        Expression::NewExpression(n) => "new "@ + expr_text(*n.expression) + "("@ + join(exprs_texts(n.arguments@), ", "@)
            + ")"@,
        Expression::NumericLiteral(i) => int_text(i as int),
        Expression::StringLiteral(s) => js_string(s.text@),
        Expression::ElementAccessExpression(x) => expr_text(*x.expression) + "["@ + expr_text(*x.argument) + "]"@,
        Expression::PrefixUnaryExpression(u) => unary_operator_text(u.operator) + expr_text(*u.operand),
        Expression::ConditionalExpression(c) => expr_text(*c.condition) + " ? "@ + expr_text(*c.when_true) + " : "@
            + expr_text(*c.when_false),
    }
}

/// The texts of a list of expressions.
pub open spec fn exprs_texts(s: Seq<Expression>) -> Seq<Seq<char>>
    decreases s, s.len(),
{
    if s.len() == 0 {
        Seq::empty()
    } else {
        exprs_texts(s.subrange(0, s.len() - 1)).push(expr_text(s[s.len() - 1]))
    }
}

/// The texts of the members of an object literal: `name: value`.
pub open spec fn members_texts(s: Seq<ObjectLiteralMember>) -> Seq<Seq<char>>
    decreases s, s.len(),
{
    if s.len() == 0 {
        Seq::empty()
    } else {
        match s[s.len() - 1] {
            ObjectLiteralMember::PropertyAssignment(id, v) => members_texts(s.subrange(0, s.len() - 1)).push(
                id.text@ + ": "@ + expr_text(v),
            ),
        }
    }
}

/// Whether an expression can be written: no property is read of a bare literal.
pub open spec fn expr_ok(e: Expression) -> bool
    decreases e, 0int,
{
    match e {
        Expression::BinaryExpression(b) => expr_ok(*b.left) && expr_ok(*b.right),
        Expression::CallExpression(c) => expr_ok(*c.expression) && exprs_ok(c.arguments@),
        Expression::PropertyAccessExpression(p) => !is_bare_literal(*p.expression) && expr_ok(*p.expression),
        Expression::ParenthesizedExpression(x) => expr_ok(*x),
        Expression::ArrayLiteralExpression(xs) => exprs_ok(xs@),
        Expression::ObjectLiteralExpression(ms) => members_ok(ms@),
        Expression::NewExpression(n) => expr_ok(*n.expression) && exprs_ok(n.arguments@),
        Expression::ElementAccessExpression(x) => expr_ok(*x.expression) && expr_ok(*x.argument),
        Expression::PrefixUnaryExpression(u) => expr_ok(*u.operand),
        Expression::ConditionalExpression(c) => expr_ok(*c.condition) && expr_ok(*c.when_true) && expr_ok(
            *c.when_false,
        ),
        _ => true,
    }
}

/// Whether each expression of the list can be written.
pub open spec fn exprs_ok(s: Seq<Expression>) -> bool
    decreases s, s.len(),
{
    if s.len() == 0 {
        true
    } else {
        exprs_ok(s.subrange(0, s.len() - 1)) && expr_ok(s[s.len() - 1])
    }
}

/// Whether each member value of an object literal can be written.
pub open spec fn members_ok(s: Seq<ObjectLiteralMember>) -> bool
    decreases s, s.len(),
{
    if s.len() == 0 {
        true
    } else {
        match s[s.len() - 1] {
            ObjectLiteralMember::PropertyAssignment(_, v) => members_ok(s.subrange(0, s.len() - 1)) && expr_ok(v),
        }
    }
}

pub proof fn lemma_exprs(s: Seq<Expression>)
    ensures
        exprs_texts(s).len() == s.len(),
        forall|k: int| 0 <= k < s.len() ==> #[trigger] exprs_texts(s)[k] == expr_text(s[k]),
        exprs_ok(s) <==> forall|k: int| 0 <= k < s.len() ==> #[trigger] expr_ok(s[k]),
    decreases s.len(),
{
    if s.len() > 0 {
        let p = s.subrange(0, s.len() - 1);
        lemma_exprs(p);
        assert forall|k: int| 0 <= k < s.len() - 1 implies s[k] == #[trigger] p[k] by {}
        if exprs_ok(s) {
            assert forall|k: int| 0 <= k < s.len() implies #[trigger] expr_ok(s[k]) by {
                if k < s.len() - 1 {
                    assert(expr_ok(p[k]));
                }
            }
        }
        if forall|k: int| 0 <= k < s.len() ==> #[trigger] expr_ok(s[k]) {
            assert forall|k: int| 0 <= k < p.len() implies #[trigger] expr_ok(p[k]) by {
                assert(expr_ok(s[k]));
            }
            assert(expr_ok(s[s.len() - 1]));
        }
    }
}

pub proof fn lemma_members(s: Seq<ObjectLiteralMember>)
    ensures
        members_texts(s).len() == s.len(),
        forall|k: int| 0 <= k < s.len() ==> #[trigger] members_texts(s)[k] == (match s[k] {
            ObjectLiteralMember::PropertyAssignment(id, v) => id.text@ + ": "@ + expr_text(v),
        }),
        members_ok(s) <==> forall|k: int| 0 <= k < s.len() ==> (match #[trigger] s[k] {
            ObjectLiteralMember::PropertyAssignment(_, v) => expr_ok(v),
        }),
    decreases s.len(),
{
    if s.len() > 0 {
        let p = s.subrange(0, s.len() - 1);
        lemma_members(p);
        assert forall|k: int| 0 <= k < s.len() - 1 implies s[k] == #[trigger] p[k] by {}
        if members_ok(s) {
            assert forall|k: int| 0 <= k < s.len() implies (match #[trigger] s[k] {
                ObjectLiteralMember::PropertyAssignment(_, v) => expr_ok(v),
            }) by {
                if k < s.len() - 1 {
                    assert(p[k] == s[k]);
                }
            }
        }
        if forall|k: int| 0 <= k < s.len() ==> (match #[trigger] s[k] {
            ObjectLiteralMember::PropertyAssignment(_, v) => expr_ok(v),
        }) {
            assert forall|k: int| 0 <= k < p.len() implies (match #[trigger] p[k] {
                ObjectLiteralMember::PropertyAssignment(_, v) => expr_ok(v),
            }) by {
                assert(p[k] == s[k]);
            }
        }
    }
}

/// Appends `.name` or `["name"]`.
fn push_property_suffix(res: &mut String, name: &String)
    ensures
        final(res)@ == old(res)@ + property_suffix(name@),
{
    if is_safe_id(name.as_str()) && !is_reserved(name.as_str()) {
        res.append(".");
        res.append(name.as_str());
    } else {
        res.append("[");
        let quoted = to_js_string(name);
        res.append(quoted.as_str());
        res.append("]");
    }
}

/// Renders a list of expressions joined by `, `.
fn render_expression_list(res: &mut String, s: &Vec<Expression>, Ghost(whole): Ghost<Expression>)
    requires
        exprs_ok(s@),
        forall|k: int| 0 <= k < s@.len() ==> decreases_to!(whole => #[trigger] s@[k]),
    ensures
        final(res)@ == old(res)@ + join(exprs_texts(s@), ", "@),
    decreases whole, 1int,
{
    proof {
        lemma_exprs(s@);
    }
    let mut parts: Vec<String> = Vec::new();
    let mut i: usize = 0;
    while i < s.len()
        invariant
            i <= s@.len(),
            exprs_texts(s@).len() == s@.len(),
            forall|k: int| 0 <= k < s@.len() ==> #[trigger] exprs_texts(s@)[k] == expr_text(s@[k]),
            forall|k: int| 0 <= k < s@.len() ==> #[trigger] expr_ok(s@[k]),
            forall|k: int| 0 <= k < s@.len() ==> decreases_to!(whole => #[trigger] s@[k]),
            views(parts@) == exprs_texts(s@).take(i as int),
        decreases s@.len() - i,
    {
        let t = render_expression_in(&s[i], Ghost(whole));
        let ghost prev = views(parts@);
        parts.push(t);
        assert(views(parts@) =~= prev.push(t@));
        assert(views(parts@) =~= exprs_texts(s@).take(i + 1));
        i = i + 1;
    }
    assert(exprs_texts(s@).take(s@.len() as int) =~= exprs_texts(s@));
    push_joined(res, &parts, ", ");
}

/// The text of an expression that is part of `whole`.
fn render_expression_in(e: &Expression, Ghost(whole): Ghost<Expression>) -> (r: String)
    requires
        expr_ok(*e),
        decreases_to!(whole => *e),
    ensures
        r@ == expr_text(*e),
    decreases whole, 0int,
{
    render_expression_impl(e)
}

/// The text of an expression.
pub fn render_expression(e: &Expression) -> (r: String)
    requires
        expr_ok(*e),
    ensures
        r@ == expr_text(*e),
{
    render_expression_impl(e)
}

fn render_expression_impl(e: &Expression) -> (r: String)
    requires
        expr_ok(*e),
    ensures
        r@ == expr_text(*e),
    decreases *e, 2int,
{
    let mut res = String::new();
    match e {
        Expression::Identifier(i) => {
            res.append(i.text.as_str());
        },
        Expression::Null => {
            res.append("null");
        },
        Expression::Undefined => {
            res.append("undefined");
        },
        Expression::False => {
            res.append("false");
        },
        Expression::True => {
            res.append("true");
        },
        Expression::BinaryExpression(b) => {
            let l = render_expression_impl(&*b.left);
            let r = render_expression_impl(&*b.right);
            res.append(l.as_str());
            res.append(" ");
            res.append(b.operator.text());
            res.append(" ");
            res.append(r.as_str());
        },
        Expression::CallExpression(c) => {
            let callee = render_expression_impl(&*c.expression);
            res.append(callee.as_str());
            res.append("(");
            proof {
                assert forall|k: int| 0 <= k < c.arguments@.len() implies decreases_to!(*e => #[trigger] c.arguments@[k]) by {
                    assert(decreases_to!(*e => *c));
                }
            }
            render_expression_list(&mut res, &c.arguments, Ghost(*e));
            res.append(")");
        },
        Expression::PropertyAccessExpression(p) => {
            let obj = render_expression_impl(&*p.expression);
            if p.requires_wrap_for_prop() {
                res.append("(");
                res.append(obj.as_str());
                res.append(")");
            } else {
                res.append(obj.as_str());
            }
            push_property_suffix(&mut res, &p.name.text);
        },
        Expression::ParenthesizedExpression(x) => {
            let inner = render_expression_impl(&**x);
            res.append("(");
            res.append(inner.as_str());
            res.append(")");
        },
        Expression::ArrayLiteralExpression(xs) => {
            res.append("[");
            proof {
                assert forall|k: int| 0 <= k < xs@.len() implies decreases_to!(*e => #[trigger] xs@[k]) by {
                    assert(decreases_to!(*e => *xs));
                }
            }
            render_expression_list(&mut res, xs, Ghost(*e));
            res.append("]");
        },
        Expression::ObjectLiteralExpression(ms) => {
            if ms.len() == 0 {
                res.append("{}");
            } else {
                proof {
                    lemma_members(ms@);
                    assert forall|k: int| 0 <= k < ms@.len() implies decreases_to!(*e => #[trigger] ms@[k]) by {
                        assert(decreases_to!(*e => *ms));
                    }
                }
                let mut parts: Vec<String> = Vec::new();
                let mut i: usize = 0;
                while i < ms.len()
                    invariant
                        i <= ms@.len(),
                        members_texts(ms@).len() == ms@.len(),
                        forall|k: int| 0 <= k < ms@.len() ==> #[trigger] members_texts(ms@)[k] == (match ms@[k] {
                            ObjectLiteralMember::PropertyAssignment(id, v) => id.text@ + ": "@ + expr_text(v),
                        }),
                        forall|k: int| 0 <= k < ms@.len() ==> (match #[trigger] ms@[k] {
                            ObjectLiteralMember::PropertyAssignment(_, v) => expr_ok(v),
                        }),
                        forall|k: int| 0 <= k < ms@.len() ==> decreases_to!(*e => #[trigger] ms@[k]),
                        views(parts@) == members_texts(ms@).take(i as int),
                    decreases ms@.len() - i,
                {
                    let member = &ms[i];
                    match member {
                        ObjectLiteralMember::PropertyAssignment(id, v) => {
                            assert(decreases_to!(*member => *v));
                            let vt = render_expression_impl(v);
                            let mut piece = id.text.clone();
                            piece.append(": ");
                            piece.append(vt.as_str());
                            let ghost prev = views(parts@);
                            parts.push(piece);
                            assert(views(parts@) =~= prev.push(piece@));
                        },
                    }
                    assert(views(parts@) =~= members_texts(ms@).take(i + 1));
                    i = i + 1;
                }
                assert(members_texts(ms@).take(ms@.len() as int) =~= members_texts(ms@));
                res.append("{ ");
                push_joined(&mut res, &parts, ", ");
                res.append(" }");
            }
        },
        Expression::NewExpression(n) => {
            let callee = render_expression_impl(&*n.expression);
            res.append("new ");
            res.append(callee.as_str());
            res.append("(");
            proof {
                assert forall|k: int| 0 <= k < n.arguments@.len() implies decreases_to!(*e => #[trigger] n.arguments@[k]) by {
                    assert(decreases_to!(*e => *n));
                }
            }
            render_expression_list(&mut res, &n.arguments, Ghost(*e));
            res.append(")");
        },
        Expression::NumericLiteral(i) => {
            push_int(&mut res, *i);
        },
        Expression::StringLiteral(s) => {
            let quoted = to_js_string(&s.text);
            res.append(quoted.as_str());
        },
        Expression::ElementAccessExpression(x) => {
            let obj = render_expression_impl(&*x.expression);
            let arg = render_expression_impl(&*x.argument);
            res.append(obj.as_str());
            res.append("[");
            res.append(arg.as_str());
            res.append("]");
        },
        Expression::PrefixUnaryExpression(u) => {
            let operand = render_expression_impl(&*u.operand);
            res.append(u.operator.text());
            res.append(operand.as_str());
        },
        Expression::ConditionalExpression(c) => {
            let cond = render_expression_impl(&*c.condition);
            let t = render_expression_impl(&*c.when_true);
            let f = render_expression_impl(&*c.when_false);
            res.append(cond.as_str());
            res.append(" ? ");
            res.append(t.as_str());
            res.append(" : ");
            res.append(f.as_str());
        },
    }
    assert(res@ =~= expr_text(*e));
    res
}


/// Where the indentation of a text stands after some of its characters.
pub struct IndentState {
    pub out: Seq<char>,
    pub at_line_start: bool,
    pub pending_cr: bool,
}

/// One character more: a line gets two spaces before its first character, `\r\n`
/// ends a line like `\n`, and a `\r` not followed by `\n` is kept.
pub open spec fn indent_step(st: IndentState, c: char) -> IndentState {
    let out0 = if st.at_line_start { st.out + "  "@ } else { st.out };
    let out1 = if st.pending_cr { out0 + seq!['\r'] } else { out0 };
    if c == '\n' {
        IndentState { out: out0 + seq!['\n'], at_line_start: true, pending_cr: false }
    } else if c == '\r' {
        IndentState { out: out1, at_line_start: false, pending_cr: true }
    } else {
        IndentState { out: out1 + seq![c], at_line_start: false, pending_cr: false }
    }
}

/// The state after all of `s`.
pub open spec fn indent_run(s: Seq<char>) -> IndentState
    decreases s.len(),
{
    if s.len() == 0 {
        IndentState { out: Seq::empty(), at_line_start: true, pending_cr: false }
    } else {
        indent_step(indent_run(s.drop_last()), s.last())
    }
}

/// Each line of `s` (split at `\n` or `\r\n`) with two spaces before it and `\n` after it.
pub open spec fn indent_text(s: Seq<char>) -> Seq<char> {
    let st = indent_run(s);
    st.out + (if st.pending_cr { seq!['\r'] } else { Seq::empty() }) + (if st.at_line_start {
        Seq::empty()
    } else {
        seq!['\n']
    })
}

/// Appends `s` indented by two spaces, line by line.
pub fn push_indented(res: &mut String, s: &String)
    ensures
        final(res)@ == old(res)@ + indent_text(s@),
{
    let ghost start = res@;
    let ghost v = s@;
    let mut at_line_start = true;
    let mut pending_cr = false;
    broadcast use vstd::string::axiom_spec_iter;
    for c in it: s.chars()
        invariant
            v == s@,
            it.seq() == v,
            res@ == start + indent_run(v.take(it.index() as int)).out,
            at_line_start == indent_run(v.take(it.index() as int)).at_line_start,
            pending_cr == indent_run(v.take(it.index() as int)).pending_cr,
    {
        proof {
            assert(v.take(it.index() + 1).drop_last() =~= v.take(it.index() as int));
        }
        let ghost before = res@;
        if at_line_start {
            res.append("  ");
        }
        if c == '\n' {
            push_char(res, '\n');
            at_line_start = true;
            pending_cr = false;
        } else if c == '\r' {
            if pending_cr {
                push_char(res, '\r');
            }
            at_line_start = false;
            pending_cr = true;
        } else {
            if pending_cr {
                push_char(res, '\r');
            }
            push_char(res, c);
            at_line_start = false;
            pending_cr = false;
        }
        proof {
            let st = indent_run(v.take(it.index() as int));
            assert(indent_run(v.take(it.index() + 1)) == indent_step(st, c));
            assert(res@ =~= start + indent_step(st, c).out);
        }
    }
    proof {
        assert(v.take(v.len() as int) =~= v);
    }
    if pending_cr {
        push_char(res, '\r');
    }
    if !at_line_start {
        push_char(res, '\n');
    }
    assert(res@ =~= start + indent_text(v));
}

/// The text of one declaration of a variable list (its type is not written).
pub open spec fn var_decl_text(d: VariableDeclaration) -> Seq<char> {
    d.name.text@ + " = "@ + expr_text(d.initializer)
}

/// `let ` or `const `, then the declarations joined by `,\n  `.
pub open spec fn var_list_text(v: VariableDeclarationList) -> Seq<char> {
    (match v.kind {
        VariableKind::Let => "let "@,
        VariableKind::Const => "const "@,
    }) + join(v.declarations@.map_values(|d: VariableDeclaration| var_decl_text(d)), ",\n  "@)
}

/// Whether a variable list can be written: it declares at least one variable, each
/// initializer can be written.
pub open spec fn var_list_ok(v: VariableDeclarationList) -> bool {
    &&& v.declarations@.len() > 0
    &&& forall|k: int| 0 <= k < v.declarations@.len() ==> expr_ok(#[trigger] v.declarations@[k].initializer)
}

/// The text of a variable list.
pub fn render_variable_list(v: &VariableDeclarationList) -> (r: String)
    requires
        var_list_ok(*v),
    ensures
        r@ == var_list_text(*v),
{
    let ghost texts = v.declarations@.map_values(|d: VariableDeclaration| var_decl_text(d));
    let mut parts: Vec<String> = Vec::new();
    let mut i: usize = 0;
    while i < v.declarations.len()
        invariant
            i <= v.declarations@.len(),
            var_list_ok(*v),
            texts == v.declarations@.map_values(|d: VariableDeclaration| var_decl_text(d)),
            views(parts@) == texts.take(i as int),
        decreases v.declarations@.len() - i,
    {
        let d = &v.declarations[i];
        assert(expr_ok(v.declarations@[i as int].initializer));
        let init = render_expression(&d.initializer);
        let mut piece = d.name.text.clone();
        piece.append(" = ");
        piece.append(init.as_str());
        let ghost prev = views(parts@);
        parts.push(piece);
        assert(views(parts@) =~= prev.push(piece@));
        assert(views(parts@) =~= texts.take(i + 1));
        i = i + 1;
    }
    assert(texts.take(v.declarations@.len() as int) =~= texts);
    let mut res = String::new();
    match v.kind {
        VariableKind::Let => res.append("let "),
        VariableKind::Const => res.append("const "),
    }
    push_joined(&mut res, &parts, ",\n  ");
    res
}

/// The text of a parameter.
pub open spec fn parameter_text(p: Parameter) -> Seq<char> {
    p.name.text@ + (if p.optional { "?"@ } else { Seq::empty() }) + ": "@ + type_text(p.parameter_type@)
}

/// The statements of a block, each indented, line by line.
pub open spec fn stmts_indented(ss: Seq<Statement>) -> Seq<char>
    decreases ss, ss.len(),
{
    if ss.len() == 0 {
        Seq::empty()
    } else {
        stmts_indented(ss.subrange(0, ss.len() - 1)) + indent_text(stmt_text(ss[ss.len() - 1]))
    }
}

/// `{`, the statements indented, `}`.
pub open spec fn block_text(b: Block) -> Seq<char>
    decreases b, 1int,
{
    "{\n"@ + stmts_indented(b.statements@) + "}"@
}

/// The cases of a switch, each indented.
pub open spec fn cases_text(cs: Seq<CaseClause>) -> Seq<char>
    decreases cs, cs.len(),
{
    if cs.len() == 0 {
        Seq::empty()
    } else {
        let c = cs[cs.len() - 1];
        cases_text(cs.subrange(0, cs.len() - 1)) + indent_text(
            "case "@ + expr_text(c.expression) + ":\n"@ + stmts_indented(c.statements@),
        )
    }
}

/// The text of a function declaration.
pub open spec fn function_text(f: FunctionDeclaration) -> Seq<char>
    decreases f, 2int,
{
    modifiers_text(f.modifiers@) + "function "@ + f.name.text@ + "("@ + join(
        f.parameters@.map_values(|p: Parameter| parameter_text(p)),
        ", "@,
    ) + "): "@ + type_text(f.return_type@) + if f.body.statements@.len() == 0 {
        " {}"@
    } else {
        " "@ + block_text(f.body)
    }
}

/// The text of a statement.
pub open spec fn stmt_text(s: Statement) -> Seq<char>
    decreases s, 0int,
{
    match s {
        Statement::Empty => ";"@,
        Statement::ImportDeclaration(d) => import_text(*d),
        Statement::EnumDeclaration(d) => enum_text(*d),
        Statement::InterfaceDeclaration(d) => interface_text(*d),
        Statement::FunctionDeclaration(f) => function_text(*f),
        Statement::ReturnStatement(Some(e)) => "return "@ + expr_text(e),
        Statement::ReturnStatement(None) => "return"@,
        Statement::VariableStatement(v) => var_list_text(v),
        Statement::IfStatement(i) => "if ("@ + expr_text(i.expression) + ") "@ + stmt_text(*i.then_statement) + (
        match i.else_statement {
            Some(e) => " else "@ + stmt_text(*e),
            None => Seq::empty(),
        }),
        Statement::Block(b) => block_text(b),
        Statement::Expression(e) => expr_text(e),
        Statement::For(f) => "for ("@ + var_list_text(f.initializer) + "; "@ + expr_text(f.condition) + "; "@
            + expr_text(f.incrementor) + ")"@ + if *f.statement is Empty {
            ";"@
        } else {
            " "@ + stmt_text(*f.statement)
        },
        Statement::While(w) => "while ("@ + expr_text(w.condition) + ") "@ + block_text(w.statement),
        Statement::Break => "break"@,
        Statement::Switch(sw) => "switch ("@ + expr_text(sw.expression) + ") {\n"@ + cases_text(sw.cases@)
            + indent_text("default:\n"@ + stmts_indented(sw.default.statements@)) + "}"@,
    }
}

/// Whether a statement can be written: its expressions can, its variable lists
/// declare something.
pub open spec fn stmt_ok(s: Statement) -> bool
    decreases s, 0int,
{
    match s {
        Statement::FunctionDeclaration(f) => stmts_ok(f.body.statements@),
        Statement::ReturnStatement(Some(e)) => expr_ok(e),
        Statement::VariableStatement(v) => var_list_ok(v),
        Statement::IfStatement(i) => expr_ok(i.expression) && stmt_ok(*i.then_statement) && match i.else_statement {
            Some(e) => stmt_ok(*e),
            None => true,
        },
        Statement::Block(b) => stmts_ok(b.statements@),
        Statement::Expression(e) => expr_ok(e),
        Statement::For(f) => var_list_ok(f.initializer) && expr_ok(f.condition) && expr_ok(f.incrementor) && stmt_ok(
            *f.statement,
        ),
        Statement::While(w) => expr_ok(w.condition) && stmts_ok(w.statement.statements@),
        Statement::Switch(sw) => expr_ok(sw.expression) && cases_ok(sw.cases@) && stmts_ok(sw.default.statements@),
        _ => true,
    }
}

/// Whether each statement can be written.
pub open spec fn stmts_ok(ss: Seq<Statement>) -> bool
    decreases ss, ss.len(),
{
    if ss.len() == 0 {
        true
    } else {
        stmts_ok(ss.subrange(0, ss.len() - 1)) && stmt_ok(ss[ss.len() - 1])
    }
}

/// Whether each case can be written.
pub open spec fn cases_ok(cs: Seq<CaseClause>) -> bool
    decreases cs, cs.len(),
{
    if cs.len() == 0 {
        true
    } else {
        let c = cs[cs.len() - 1];
        cases_ok(cs.subrange(0, cs.len() - 1)) && expr_ok(c.expression) && stmts_ok(c.statements@)
    }
}

pub proof fn lemma_stmts_ok(ss: Seq<Statement>)
    ensures
        stmts_ok(ss) <==> forall|k: int| 0 <= k < ss.len() ==> #[trigger] stmt_ok(ss[k]),
    decreases ss.len(),
{
    if ss.len() > 0 {
        let p = ss.subrange(0, ss.len() - 1);
        lemma_stmts_ok(p);
        assert forall|k: int| 0 <= k < ss.len() - 1 implies ss[k] == #[trigger] p[k] by {}
        if stmts_ok(ss) {
            assert forall|k: int| 0 <= k < ss.len() implies #[trigger] stmt_ok(ss[k]) by {
                if k < ss.len() - 1 {
                    assert(stmt_ok(p[k]));
                }
            }
        }
        if forall|k: int| 0 <= k < ss.len() ==> #[trigger] stmt_ok(ss[k]) {
            assert forall|k: int| 0 <= k < p.len() implies #[trigger] stmt_ok(p[k]) by {
                assert(stmt_ok(ss[k]));
            }
            assert(stmt_ok(ss[ss.len() - 1]));
        }
    }
}

proof fn lemma_stmts_indented_step(ss: Seq<Statement>, i: int)
    requires
        0 <= i < ss.len(),
    ensures
        stmts_indented(ss.subrange(0, i + 1)) == stmts_indented(ss.subrange(0, i)) + indent_text(stmt_text(ss[i])),
{
    assert(ss.subrange(0, i + 1).subrange(0, i) =~= ss.subrange(0, i));
}

/// Appends the statements, each indented.
fn push_statements_indented(res: &mut String, ss: &Vec<Statement>, Ghost(whole): Ghost<Statement>)
    requires
        stmts_ok(ss@),
        forall|k: int| 0 <= k < ss@.len() ==> decreases_to!(whole => #[trigger] ss@[k]),
    ensures
        final(res)@ == old(res)@ + stmts_indented(ss@),
    decreases whole, 1int,
{
    proof {
        lemma_stmts_ok(ss@);
        assert(ss@.subrange(0, 0) =~= Seq::<Statement>::empty());
    }
    let ghost start = res@;
    let mut i: usize = 0;
    while i < ss.len()
        invariant
            i <= ss@.len(),
            forall|k: int| 0 <= k < ss@.len() ==> #[trigger] stmt_ok(ss@[k]),
            forall|k: int| 0 <= k < ss@.len() ==> decreases_to!(whole => #[trigger] ss@[k]),
            res@ == start + stmts_indented(ss@.subrange(0, i as int)),
        decreases ss@.len() - i,
    {
        let text = render_statement_in(&ss[i], Ghost(whole));
        push_indented(res, &text);
        proof {
            lemma_stmts_indented_step(ss@, i as int);
        }
        i = i + 1;
    }
    assert(ss@.subrange(0, ss@.len() as int) =~= ss@);
}

/// The text of a statement that is part of `whole`.
fn render_statement_in(s: &Statement, Ghost(whole): Ghost<Statement>) -> (r: String)
    requires
        stmt_ok(*s),
        decreases_to!(whole => *s),
    ensures
        r@ == stmt_text(*s),
    decreases whole, 0int,
{
    render_statement_impl(s)
}

/// The text of a block.
fn render_block_in(b: &Block, Ghost(whole): Ghost<Statement>) -> (r: String)
    requires
        stmts_ok(b.statements@),
        decreases_to!(whole => *b),
    ensures
        r@ == block_text(*b),
    decreases whole, 2int,
{
    let mut res = String::new();
    res.append("{\n");
    proof {
        assert forall|k: int| 0 <= k < b.statements@.len() implies decreases_to!(whole => #[trigger] b.statements@[k]) by {
            assert(decreases_to!(*b => b.statements@[k]));
        }
    }
    push_statements_indented(&mut res, &b.statements, Ghost(whole));
    res.append("}");
    res
}

/// The text of a statement.
pub fn render_statement(s: &Statement) -> (r: String)
    requires
        stmt_ok(*s),
    ensures
        r@ == stmt_text(*s),
{
    render_statement_impl(s)
}

fn render_statement_impl(s: &Statement) -> (r: String)
    requires
        stmt_ok(*s),
    ensures
        r@ == stmt_text(*s),
    decreases *s, 3int,
{
    let mut res = String::new();
    match s {
        Statement::Empty => {
            res.append(";");
        },
        Statement::ImportDeclaration(d) => {
            res = render_import(&**d);
        },
        Statement::EnumDeclaration(d) => {
            res = render_enum(&**d);
        },
        Statement::InterfaceDeclaration(d) => {
            res = render_interface(&**d);
        },
        Statement::FunctionDeclaration(f) => {
            push_modifiers(&mut res, &f.modifiers);
            res.append("function ");
            res.append(f.name.text.as_str());
            res.append("(");
            let ghost texts = f.parameters@.map_values(|p: Parameter| parameter_text(p));
            let mut parts: Vec<String> = Vec::new();
            let mut i: usize = 0;
            while i < f.parameters.len()
                invariant
                    i <= f.parameters@.len(),
                    texts == f.parameters@.map_values(|p: Parameter| parameter_text(p)),
                    views(parts@) == texts.take(i as int),
                decreases f.parameters@.len() - i,
            {
                let param = &f.parameters[i];
                let mut piece = param.name.text.clone();
                if param.optional {
                    piece.append("?");
                }
                piece.append(": ");
                let t = render_type(&param.parameter_type);
                piece.append(t.as_str());
                assert(piece@ =~= parameter_text(*param));
                let ghost prev = views(parts@);
                parts.push(piece);
                assert(views(parts@) =~= prev.push(piece@));
                assert(views(parts@) =~= texts.take(i + 1));
                i = i + 1;
            }
            assert(texts.take(f.parameters@.len() as int) =~= texts);
            push_joined(&mut res, &parts, ", ");
            res.append("): ");
            let rt = render_type(&f.return_type);
            res.append(rt.as_str());
            if f.body.statements.len() == 0 {
                res.append(" {}");
            } else {
                res.append(" ");
                proof {
                    assert(decreases_to!(*s => f.body));
                }
                let body = render_block_in(&f.body, Ghost(*s));
                res.append(body.as_str());
            }
            assert(res@ =~= function_text(**f));
            assert(res@ =~= stmt_text(*s));
        },
        Statement::ReturnStatement(Some(e)) => {
            res.append("return ");
            let t = render_expression(e);
            res.append(t.as_str());
        },
        Statement::ReturnStatement(None) => {
            res.append("return");
        },
        Statement::VariableStatement(v) => {
            res = render_variable_list(v);
        },
        Statement::IfStatement(i) => {
            res.append("if (");
            let cond = render_expression(&i.expression);
            res.append(cond.as_str());
            res.append(") ");
            let then_text = render_statement_impl(&*i.then_statement);
            res.append(then_text.as_str());
            match &i.else_statement {
                Some(e) => {
                    res.append(" else ");
                    let else_text = render_statement_impl(&**e);
                    res.append(else_text.as_str());
                },
                None => {},
            }
            assert(res@ =~= stmt_text(*s));
        },
        Statement::Block(b) => {
            proof {
                assert(decreases_to!(*s => *b));
            }
            res = render_block_in(b, Ghost(*s));
        },
        Statement::Expression(e) => {
            res = render_expression(e);
        },
        Statement::For(f) => {
            res.append("for (");
            let init = render_variable_list(&f.initializer);
            res.append(init.as_str());
            res.append("; ");
            let cond = render_expression(&f.condition);
            res.append(cond.as_str());
            res.append("; ");
            let inc = render_expression(&f.incrementor);
            res.append(inc.as_str());
            res.append(")");
            match &*f.statement {
                Statement::Empty => {
                    res.append(";");
                },
                _ => {
                    res.append(" ");
                    let body = render_statement_impl(&*f.statement);
                    res.append(body.as_str());
                },
            }
            assert(res@ =~= stmt_text(*s));
        },
        Statement::While(w) => {
            res.append("while (");
            let cond = render_expression(&w.condition);
            res.append(cond.as_str());
            res.append(") ");
            proof {
                assert(decreases_to!(*s => w.statement));
            }
            let body = render_block_in(&w.statement, Ghost(*s));
            res.append(body.as_str());
        },
        Statement::Break => {
            res.append("break");
        },
        Statement::Switch(sw) => {
            res.append("switch (");
            let e = render_expression(&sw.expression);
            res.append(e.as_str());
            res.append(") {\n");
            let ghost start = res@;
            assert(sw.cases@.subrange(0, 0) =~= Seq::<CaseClause>::empty());
            proof {
                assert forall|k: int| 0 <= k < sw.cases@.len() implies decreases_to!(*s => #[trigger] sw.cases@[k]) by {
                    assert(decreases_to!(*s => **sw));
                }
            }
            let mut i: usize = 0;
            while i < sw.cases.len()
                invariant
                    i <= sw.cases@.len(),
                    cases_ok(sw.cases@),
                    forall|k: int| 0 <= k < sw.cases@.len() ==> decreases_to!(*s => #[trigger] sw.cases@[k]),
                    res@ == start + cases_text(sw.cases@.subrange(0, i as int)),
                decreases sw.cases@.len() - i,
            {
                let c = &sw.cases[i];
                proof {
                    lemma_cases_ok(sw.cases@, i as int);
                    assert(sw.cases@.subrange(0, i + 1).subrange(0, i as int) =~= sw.cases@.subrange(0, i as int));
                    assert forall|k: int| 0 <= k < c.statements@.len() implies decreases_to!(*s => #[trigger] c.statements@[k]) by {
                        assert(decreases_to!(*c => c.statements@[k]));
                    }
                }
                let mut piece = String::new();
                piece.append("case ");
                let ce = render_expression(&c.expression);
                piece.append(ce.as_str());
                piece.append(":\n");
                push_statements_indented(&mut piece, &c.statements, Ghost(*s));
                push_indented(&mut res, &piece);
                i = i + 1;
            }
            assert(sw.cases@.subrange(0, sw.cases@.len() as int) =~= sw.cases@);
            let mut d = String::new();
            d.append("default:\n");
            proof {
                assert forall|k: int| 0 <= k < sw.default.statements@.len() implies decreases_to!(*s => #[trigger] sw.default.statements@[k]) by {
                    assert(decreases_to!(*s => **sw));
                }
            }
            push_statements_indented(&mut d, &sw.default.statements, Ghost(*s));
            push_indented(&mut res, &d);
            res.append("}");
            assert(res@ =~= stmt_text(*s));
        },
    }
    assert(res@ =~= stmt_text(*s));
    res
}

proof fn lemma_cases_ok(cs: Seq<CaseClause>, i: int)
    requires
        cases_ok(cs),
        0 <= i < cs.len(),
    ensures
        expr_ok(cs[i].expression),
        stmts_ok(cs[i].statements@),
    decreases cs.len(),
{
    if i < cs.len() - 1 {
        let p = cs.subrange(0, cs.len() - 1);
        assert(p[i] == cs[i]);
        lemma_cases_ok(p, i);
    }
}


/// The blank line put before a statement of a file, given the statement before it.
pub open spec fn separator(s: Statement, prev: Option<Statement>) -> Seq<char> {
    match prev {
        None => Seq::empty(),
        Some(p) => if s is EnumDeclaration || s is InterfaceDeclaration || s is FunctionDeclaration {
            "\n"@
        } else if s is ImportDeclaration {
            if p is ImportDeclaration {
                Seq::empty()
            } else {
                "\n"@
            }
        } else if p is ReturnStatement {
            "\n"@
        } else {
            Seq::empty()
        },
    }
}

/// The statements of a file, each on its own lines, declarations set apart by a blank line.
pub open spec fn file_stmts_text(ss: Seq<Statement>) -> Seq<char>
    decreases ss.len(),
{
    if ss.len() == 0 {
        Seq::empty()
    } else {
        let prev = if ss.len() >= 2 { Some(ss[ss.len() - 2]) } else { None };
        file_stmts_text(ss.drop_last()) + separator(ss.last(), prev) + stmt_text(ss.last()) + "\n"@
    }
}

/// The text of a module.
pub open spec fn file_text(f: File) -> Seq<char> {
    file_stmts_text(f.statements@)
}

/// The text of a module.
pub fn render_file(file: &File) -> (r: String)
    requires
        stmts_ok(file.statements@),
    ensures
        r@ == file_text(*file),
{
    proof {
        lemma_stmts_ok(file.statements@);
    }
    let mut res = String::new();
    let mut i: usize = 0;
    while i < file.statements.len()
        invariant
            i <= file.statements@.len(),
            forall|k: int| 0 <= k < file.statements@.len() ==> #[trigger] stmt_ok(file.statements@[k]),
            res@ == file_stmts_text(file.statements@.take(i as int)),
        decreases file.statements@.len() - i,
    {
        let ghost before = res@;
        let statement = &file.statements[i];
        if i > 0 {
            let last = &file.statements[i - 1];
            let blank = match statement {
                Statement::EnumDeclaration(_) => true,
                Statement::InterfaceDeclaration(_) => true,
                Statement::FunctionDeclaration(_) => true,
                Statement::ImportDeclaration(_) => !matches!(last, Statement::ImportDeclaration(_)),
                _ => matches!(last, Statement::ReturnStatement(_)),
            };
            if blank {
                res.append("\n");
            }
        }
        let text = render_statement(statement);
        res.append(text.as_str());
        res.append("\n");
        proof {
            let t = file.statements@.take(i + 1);
            assert(t.drop_last() =~= file.statements@.take(i as int));
            assert(t.last() == file.statements@[i as int]);
            if i >= 1 {
                assert(t[t.len() - 2] == file.statements@[i - 1]);
            }
            assert(res@ =~= file_stmts_text(t));
        }
        i = i + 1;
    }
    assert(file.statements@.take(file.statements@.len() as int) =~= file.statements@);
    res
}

/// Whether an expression can be written (see `expr_ok`).
pub fn check_expression(e: &Expression) -> (r: bool)
    ensures
        r == expr_ok(*e),
    decreases *e,
{
    match e {
        Expression::BinaryExpression(b) => check_expression(&*b.left) && check_expression(&*b.right),
        Expression::CallExpression(c) => {
            if !check_expression(&*c.expression) {
                return false;
            }
            proof {
                assert forall|k: int| 0 <= k < c.arguments@.len() implies decreases_to!(*e => #[trigger] c.arguments@[k]) by {
                    assert(decreases_to!(*e => *c));
                }
            }
            check_expression_list(&c.arguments, Ghost(*e))
        },
        Expression::PropertyAccessExpression(p) => {
            let bare = match &*p.expression {
                Expression::Null => true,
                Expression::Undefined => true,
                Expression::False => true,
                Expression::True => true,
                _ => false,
            };
            !bare && check_expression(&*p.expression)
        },
        Expression::ParenthesizedExpression(x) => check_expression(&**x),
        Expression::ArrayLiteralExpression(xs) => {
            proof {
                assert forall|k: int| 0 <= k < xs@.len() implies decreases_to!(*e => #[trigger] xs@[k]) by {
                    assert(decreases_to!(*e => *xs));
                }
            }
            check_expression_list(xs, Ghost(*e))
        },
        Expression::ObjectLiteralExpression(ms) => {
            proof {
                lemma_members(ms@);
                assert forall|k: int| 0 <= k < ms@.len() implies decreases_to!(*e => #[trigger] ms@[k]) by {
                    assert(decreases_to!(*e => *ms));
                }
            }
            let mut i: usize = 0;
            while i < ms.len()
                invariant
                    i <= ms@.len(),
                    expr_ok(*e) == members_ok(ms@),
                    forall|k: int| 0 <= k < ms@.len() ==> decreases_to!(*e => #[trigger] ms@[k]),
                    forall|k: int| 0 <= k < i ==> (match #[trigger] ms@[k] {
                        ObjectLiteralMember::PropertyAssignment(_, v) => expr_ok(v),
                    }),
                    members_ok(ms@) <==> forall|k: int| 0 <= k < ms@.len() ==> (match #[trigger] ms@[k] {
                        ObjectLiteralMember::PropertyAssignment(_, v) => expr_ok(v),
                    }),
                decreases ms@.len() - i,
            {
                let member = &ms[i];
                match member {
                    ObjectLiteralMember::PropertyAssignment(_, v) => {
                        assert(decreases_to!(*member => *v));
                        if !check_expression(v) {
                            assert(!(match ms@[i as int] {
                                ObjectLiteralMember::PropertyAssignment(_, v) => expr_ok(v),
                            }));
                            return false;
                        }
                    },
                }
                i = i + 1;
            }
            true
        },
        Expression::NewExpression(n) => {
            if !check_expression(&*n.expression) {
                return false;
            }
            proof {
                assert forall|k: int| 0 <= k < n.arguments@.len() implies decreases_to!(*e => #[trigger] n.arguments@[k]) by {
                    assert(decreases_to!(*e => *n));
                }
            }
            check_expression_list(&n.arguments, Ghost(*e))
        },
        Expression::ElementAccessExpression(x) => check_expression(&*x.expression) && check_expression(&*x.argument),
        Expression::PrefixUnaryExpression(u) => check_expression(&*u.operand),
        Expression::ConditionalExpression(c) => check_expression(&*c.condition) && check_expression(&*c.when_true)
            && check_expression(&*c.when_false),
        _ => true,
    }
}

fn check_expression_list(s: &Vec<Expression>, Ghost(whole): Ghost<Expression>) -> (r: bool)
    requires
        forall|k: int| 0 <= k < s@.len() ==> decreases_to!(whole => #[trigger] s@[k]),
    ensures
        r == exprs_ok(s@),
    decreases whole, 1int,
{
    proof {
        lemma_exprs(s@);
    }
    let mut i: usize = 0;
    while i < s.len()
        invariant
            i <= s@.len(),
            forall|k: int| 0 <= k < s@.len() ==> decreases_to!(whole => #[trigger] s@[k]),
            forall|k: int| 0 <= k < i ==> #[trigger] expr_ok(s@[k]),
            exprs_ok(s@) <==> forall|k: int| 0 <= k < s@.len() ==> #[trigger] expr_ok(s@[k]),
        decreases s@.len() - i,
    {
        if !check_expression_in(&s[i], Ghost(whole)) {
            return false;
        }
        i = i + 1;
    }
    true
}

fn check_expression_in(e: &Expression, Ghost(whole): Ghost<Expression>) -> (r: bool)
    requires
        decreases_to!(whole => *e),
    ensures
        r == expr_ok(*e),
    decreases whole, 0int,
{
    check_expression(e)
}

/// Whether a variable list can be written (see `var_list_ok`).
pub fn check_variable_list(v: &VariableDeclarationList) -> (r: bool)
    ensures
        r == var_list_ok(*v),
{
    if v.declarations.len() == 0 {
        return false;
    }
    let mut i: usize = 0;
    while i < v.declarations.len()
        invariant
            i <= v.declarations@.len(),
            forall|k: int| 0 <= k < i ==> expr_ok(#[trigger] v.declarations@[k].initializer),
        decreases v.declarations@.len() - i,
    {
        if !check_expression(&v.declarations[i].initializer) {
            return false;
        }
        i = i + 1;
    }
    true
}

/// Whether a statement can be written (see `stmt_ok`).
pub fn check_statement(s: &Statement) -> (r: bool)
    ensures
        r == stmt_ok(*s),
    decreases *s, 2int,
{
    match s {
        Statement::FunctionDeclaration(f) => {
            proof {
                assert forall|k: int| 0 <= k < f.body.statements@.len() implies decreases_to!(*s => #[trigger] f.body.statements@[k]) by {
                    assert(decreases_to!(*s => f.body));
                }
            }
            check_statement_list(&f.body.statements, Ghost(*s))
        },
        Statement::ReturnStatement(Some(e)) => check_expression(e),
        Statement::VariableStatement(v) => check_variable_list(v),
        Statement::IfStatement(i) => {
            let else_ok = match &i.else_statement {
                Some(e) => check_statement(&**e),
                None => true,
            };
            check_expression(&i.expression) && check_statement(&*i.then_statement) && else_ok
        },
        Statement::Block(b) => {
            proof {
                assert forall|k: int| 0 <= k < b.statements@.len() implies decreases_to!(*s => #[trigger] b.statements@[k]) by {
                    assert(decreases_to!(*s => *b));
                }
            }
            check_statement_list(&b.statements, Ghost(*s))
        },
        Statement::Expression(e) => check_expression(e),
        Statement::For(f) => check_variable_list(&f.initializer) && check_expression(&f.condition) && check_expression(
            &f.incrementor,
        ) && check_statement(&*f.statement),
        Statement::While(w) => {
            proof {
                assert forall|k: int| 0 <= k < w.statement.statements@.len() implies decreases_to!(*s => #[trigger] w.statement.statements@[k]) by {
                    assert(decreases_to!(*s => w.statement));
                }
            }
            check_expression(&w.condition) && check_statement_list(&w.statement.statements, Ghost(*s))
        },
        Statement::Switch(sw) => {
            if !check_expression(&sw.expression) {
                return false;
            }
            proof {
                assert forall|k: int| 0 <= k < sw.cases@.len() implies decreases_to!(*s => #[trigger] sw.cases@[k]) by {
                    assert(decreases_to!(*s => **sw));
                }
                assert forall|k: int| 0 <= k < sw.default.statements@.len() implies decreases_to!(*s => #[trigger] sw.default.statements@[k]) by {
                    assert(decreases_to!(*s => **sw));
                }
                assert(sw.cases@.subrange(0, 0) =~= Seq::<CaseClause>::empty());
            }
            let mut i: usize = 0;
            while i < sw.cases.len()
                invariant
                    i <= sw.cases@.len(),
                    stmt_ok(*s) == (cases_ok(sw.cases@) && stmts_ok(sw.default.statements@)),
                    forall|k: int| 0 <= k < sw.cases@.len() ==> decreases_to!(*s => #[trigger] sw.cases@[k]),
                    cases_ok(sw.cases@.subrange(0, i as int)),
                decreases sw.cases@.len() - i,
            {
                let c = &sw.cases[i];
                proof {
                    assert(sw.cases@.subrange(0, i + 1).subrange(0, i as int) =~= sw.cases@.subrange(0, i as int));
                    assert(sw.cases@.subrange(0, i + 1)[i as int] == *c);
                    assert forall|k: int| 0 <= k < c.statements@.len() implies decreases_to!(*s => #[trigger] c.statements@[k]) by {
                        assert(decreases_to!(*c => c.statements@[k]));
                    }
                }
                if !check_expression(&c.expression) || !check_statement_list(&c.statements, Ghost(*s)) {
                    proof {
                        lemma_cases_prefix(sw.cases@, i as int);
                    }
                    return false;
                }
                i = i + 1;
            }
            assert(sw.cases@.subrange(0, sw.cases@.len() as int) =~= sw.cases@);
            check_statement_list(&sw.default.statements, Ghost(*s))
        },
        _ => true,
    }
}

proof fn lemma_cases_prefix(cs: Seq<CaseClause>, i: int)
    requires
        0 <= i < cs.len(),
        !(expr_ok(cs[i].expression) && stmts_ok(cs[i].statements@)),
    ensures
        !cases_ok(cs),
{
    if cases_ok(cs) {
        lemma_cases_ok(cs, i);
    }
}

fn check_statement_list(ss: &Vec<Statement>, Ghost(whole): Ghost<Statement>) -> (r: bool)
    requires
        forall|k: int| 0 <= k < ss@.len() ==> decreases_to!(whole => #[trigger] ss@[k]),
    ensures
        r == stmts_ok(ss@),
    decreases whole, 1int,
{
    proof {
        lemma_stmts_ok(ss@);
    }
    let mut i: usize = 0;
    while i < ss.len()
        invariant
            i <= ss@.len(),
            forall|k: int| 0 <= k < ss@.len() ==> decreases_to!(whole => #[trigger] ss@[k]),
            forall|k: int| 0 <= k < i ==> #[trigger] stmt_ok(ss@[k]),
            stmts_ok(ss@) <==> forall|k: int| 0 <= k < ss@.len() ==> #[trigger] stmt_ok(ss@[k]),
        decreases ss@.len() - i,
    {
        if !check_statement_in(&ss[i], Ghost(whole)) {
            return false;
        }
        i = i + 1;
    }
    true
}

fn check_statement_in(s: &Statement, Ghost(whole): Ghost<Statement>) -> (r: bool)
    requires
        decreases_to!(whole => *s),
    ensures
        r == stmt_ok(*s),
    decreases whole, 0int,
{
    check_statement(s)
}

/// Whether each statement of a module can be written.
pub fn check_file(file: &File) -> (r: bool)
    ensures
        r == stmts_ok(file.statements@),
{
    proof {
        lemma_stmts_ok(file.statements@);
    }
    let mut i: usize = 0;
    while i < file.statements.len()
        invariant
            i <= file.statements@.len(),
            forall|k: int| 0 <= k < i ==> #[trigger] stmt_ok(file.statements@[k]),
            stmts_ok(file.statements@) <==> forall|k: int| 0 <= k < file.statements@.len() ==> #[trigger] stmt_ok(
                file.statements@[k],
            ),
        decreases file.statements@.len() - i,
    {
        if !check_statement(&file.statements[i]) {
            return false;
        }
        i = i + 1;
    }
    true
}

} // verus!
