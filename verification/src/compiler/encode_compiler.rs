//! The encoding function of a message.
use vstd::prelude::*;
use crate::compiler::ast::{
    is_bare_literal, wraps_for_property, UnaryOperator, VariableDeclaration, VariableKind, BinaryOperator, Block, Expression, File, Folder, FolderEntry, ForStatement, FunctionDeclaration, Identifier,
    IfStatement, ImportDeclaration, ImportSpecifier, Modifier, Parameter, Statement, StringLiteral, TsTypeV, Type,
    VariableDeclarationList,
};
use crate::compiler::constants::{ENCODE_FUNCTION_NAME, PROTOBUF_MODULE, encode_type_name_of, has_property, message_name_to_encode_type_name};
use crate::compiler::imports::{fresh_at, fresh_paths, imports_exactly, import_path_of, lemma_fresh_step, imports_path, lemma_function_import_outcome, all_imports, has_plain_import, is_plain_import, lemma_one_import_more, has_function_import, same_or_one_import_more, lemma_import_slot, lemma_slot_after_all_imports, is_function_import, check_import_path, ensure_import, get_relative_import_string, import_path_ok, import_slot, imports_from, relative_import_text};
use crate::compiler::ts_path::{TsPathComponent, TsPathComponentV, ts_component_of};
use crate::compiler::types_compiler::{declaration_path, declaration_ts_path};
use crate::error::{ProtoError, ProtoErrorV};
use crate::package::{json_name_of, type_view, Field, FieldV, Type as FieldType, TypeV, is_scalar, resolved_packed_wire_type, resolved_wire_type, scalar_name};
use crate::proto_scope::{MessageScope, RootScope, message_fields_of};
use crate::protopath::PathComponentV;
use crate::compiler::names::{js_string};
use crate::compiler::render::{
    block_text, function_text, modifiers_text, parameter_text, var_decl_text, var_list_ok, var_list_text, expr_ok, expr_text, exprs_ok, exprs_texts, indent_text, property_suffix, stmt_ok, stmt_text, stmts_indented,
    stmts_ok,
};
use crate::text::{decimal, int_text, join, push_decimal};

verus! {

/// The field numbers that can be written with their wire type in the key of a field.
pub open spec fn tag_in_range(tag: i64) -> bool {
    -0x0fff_ffff_ffff_ffff <= tag <= 0x0fff_ffff_ffff_ffff
}

/// The key of a field: its number shifted by three bits, with the wire type below.
pub open spec fn field_key(tag: i64, wire_type: u32) -> int {
    tag * 8 + wire_type
}

/// The key of a field, as a number literal.
fn key_literal(tag: i64, wire_type: u32) -> (r: Expression)
    requires
        tag_in_range(tag),
        wire_type < 8,
    ensures
        r == Expression::NumericLiteral((tag * 8 + wire_type) as i64),
        expr_text(r) == int_text(field_key(tag, wire_type)),
        expr_ok(r),
{
    Expression::NumericLiteral(tag * 8 + wire_type as i64)
}

/// `<receiver>.<method>(<args>)` where the receiver needs no parentheses.
pub open spec fn method_call_text(receiver: Seq<char>, method: Seq<char>, args: Seq<Seq<char>>) -> Seq<char> {
    receiver + property_suffix(method) + "("@ + join(args, ", "@) + ")"@
}

/// `message.<name>`.
pub open spec fn message_value_text(name: Seq<char>) -> Seq<char> {
    "message"@ + property_suffix(name)
}

/// `message.<name> != null && Object.hasOwnProperty.call(message, "<name>")`: the
/// field is set.
pub open spec fn present_text(name: Seq<char>) -> Seq<char> {
    message_value_text(name) + " != null && "@ + method_call_text(
        "Object"@ + property_suffix("hasOwnProperty"@),
        "call"@,
        seq!["message"@, js_string(name)],
    )
}

/// `if (<condition>) {`, the statement indented, `}`.
pub open spec fn if_block_text(condition: Seq<char>, statement: Seq<char>) -> Seq<char> {
    "if ("@ + condition + ") {\n"@ + indent_text(statement) + "}"@
}

/// `w.uint32(<key>)`: the key of a field.
pub open spec fn key_call_text(tag: i64, wire_type: u32) -> Seq<char> {
    method_call_text("w"@, "uint32"@, seq![int_text(field_key(tag, wire_type))])
}

/// `for (let <var> = 0; <var> < <array>.length; ++<var>)`.
pub open spec fn for_head_text(var: Seq<char>, array: Seq<char>) -> Seq<char> {
    "for (let "@ + var + " = "@ + int_text(0) + "; "@ + var + " < "@ + array + property_suffix("length"@) + "; "@
        + "++"@ + var + ")"@
}

/// `<f>(<value>, w.uint32(<key>).fork()).ldelim()`: a nested message, written with
/// its length before it.
pub open spec fn encode_call_text(f: Seq<char>, tag: i64, value: Seq<char>) -> Seq<char> {
    method_call_text(
        f + "("@ + value + ", "@ + method_call_text(key_call_text(tag, 2), "fork"@, Seq::empty()) + ")"@,
        "ldelim"@,
        Seq::empty(),
    )
}

/// `w.uint32(<key>).<method>(<value>)`: a scalar written with its key.
pub open spec fn write_text(tag: i64, wire_type: u32, method: Seq<char>, value: Seq<char>) -> Seq<char> {
    method_call_text(key_call_text(tag, wire_type), method, seq![value])
}

/// `message.<name>[i]`.
pub open spec fn element_text(name: Seq<char>) -> Seq<char> {
    message_value_text(name) + "["@ + "i"@ + "]"@
}

/// `{ for (...) w.uint32(<key>).<type>(message.<name>[i]) }`.
pub open spec fn non_packed_text(name: Seq<char>, t: TypeV, tag: i64) -> Seq<char> {
    "{\n"@ + indent_text(
        for_head_text("i"@, message_value_text(name)) + " "@
            + write_text(tag, resolved_wire_type(t), scalar_name(t), element_text(name)),
    ) + "}"@
}

/// `{ w.uint32(<key>).fork(); for (...) w.<type>(message.<name>[i]); w.ldelim() }`.
pub open spec fn packed_text(name: Seq<char>, t: TypeV, tag: i64) -> Seq<char> {
    "{\n"@ + indent_text(method_call_text(key_call_text(tag, 2), "fork"@, Seq::empty()))
        + indent_text(
        for_head_text("i"@, message_value_text(name)) + " "@
            + method_call_text("w"@, scalar_name(t), seq![element_text(name)]),
    ) + indent_text(method_call_text("w"@, "ldelim"@, Seq::empty())) + "}"@
}

/// `message.<name> != null && message.<name>.length`.
pub open spec fn non_empty_text(name: Seq<char>) -> Seq<char> {
    message_value_text(name) + " != null && "@ + message_value_text(name) + property_suffix("length"@)
}

/// A repeated scalar field: packed where its type can be.
pub open spec fn repeated_scalar_text(name: Seq<char>, t: TypeV, tag: i64) -> Seq<char> {
    "if ("@ + non_empty_text(name) + ") "@ + if resolved_packed_wire_type(t) is Some {
        packed_text(name, t, tag)
    } else {
        non_packed_text(name, t, tag)
    }
}

/// `Object.keys(<obj>)`.
pub open spec fn object_keys_text(obj: Seq<char>) -> Seq<char> {
    method_call_text("Object"@, "keys"@, seq![obj])
}

/// `w.uint32(<key>).fork().uint32(<8 + key wire>).<key type>(k)`: an entry's key.
pub open spec fn entry_key_text(tag: i64, key_type: TypeV, key_wire: u32) -> Seq<char> {
    method_call_text(
        method_call_text(
            method_call_text(key_call_text(tag, 2), "fork"@, Seq::empty()),
            "uint32"@,
            seq![int_text(8 + key_wire)],
        ),
        scalar_name(key_type),
        seq!["k"@],
    )
}

/// `<key>.uint32(<16 + value wire>).<value type>(v).ldelim()`: an entry's scalar
/// value after its key.
pub open spec fn entry_value_text(key: Seq<char>, value_type: TypeV) -> Seq<char> {
    method_call_text(
        method_call_text(
            method_call_text(key, "uint32"@, seq![int_text(16 + resolved_wire_type(value_type))]),
            scalar_name(value_type),
            seq!["v"@],
        ),
        "ldelim"@,
        Seq::empty(),
    )
}

/// A map field whose values are scalars: each entry written as a nested message of
/// its key and its value.
pub open spec fn map_field_text(name: Seq<char>, tag: i64, key_type: TypeV, value_type: TypeV) -> Seq<char> {
    "if ("@ + present_text(name) + ") {\n"@ + indent_text("const ks = "@ + object_keys_text(message_value_text(name)))
        + indent_text(
        for_head_text("i"@, "ks"@) + " {\n"@ + indent_text("const k = ks[i]"@) + indent_text(
            "const v = "@ + message_value_text(name) + "[k]"@,
        ) + indent_text(entry_value_text(entry_key_text(tag, key_type, map_key_wire(key_type)->0), value_type)) + "}"@,
    ) + "}"@
}

pub proof fn lemma_one_expr(e: Expression)
    ensures
        exprs_texts(seq![e]) == seq![expr_text(e)],
        exprs_ok(seq![e]) == expr_ok(e),
{
    let s = seq![e];
    assert(s.subrange(0, 0) =~= Seq::<Expression>::empty());
    assert(exprs_texts(Seq::<Expression>::empty()) =~= Seq::<Seq<char>>::empty());
    assert(exprs_ok(Seq::<Expression>::empty()));
    assert(s[s.len() - 1] == e);
    assert(exprs_texts(s) =~= seq![expr_text(e)]);
}

pub proof fn lemma_two_exprs(a: Expression, b: Expression)
    ensures
        exprs_texts(seq![a, b]) == seq![expr_text(a), expr_text(b)],
        exprs_ok(seq![a, b]) == (expr_ok(a) && expr_ok(b)),
{
    assert(seq![a, b].subrange(0, 1) =~= seq![a]);
    lemma_one_expr(a);
}

pub proof fn lemma_no_exprs()
    ensures
        exprs_texts(Seq::<Expression>::empty()) == Seq::<Seq<char>>::empty(),
        exprs_ok(Seq::<Expression>::empty()),
{
}

pub proof fn lemma_one_stmt(s: Statement)
    ensures
        stmts_indented(seq![s]) == indent_text(stmt_text(s)),
        stmts_ok(seq![s]) == stmt_ok(s),
{
    let ss = seq![s];
    assert(ss.subrange(0, 0) =~= Seq::<Statement>::empty());
    assert(stmts_indented(Seq::<Statement>::empty()) =~= Seq::<char>::empty());
    assert(stmts_ok(Seq::<Statement>::empty()));
    assert(ss[ss.len() - 1] == s);
    assert(stmts_indented(ss) =~= indent_text(stmt_text(s)));
}

/// How an expression is written before `.name`: in parentheses where it must be.
pub open spec fn receiver_text(e: Expression) -> Seq<char> {
    if wraps_for_property(e) {
        "("@ + expr_text(e) + ")"@
    } else {
        expr_text(e)
    }
}

/// The text of `<receiver>.<name>(<args>)` built by `into_method_call`.
pub proof fn lemma_method_call(r: Expression, receiver: Expression, name: Seq<char>, args: Seq<Expression>)
    requires
        r matches Expression::CallExpression(c) && c.arguments@ == args
            && (*c.expression matches Expression::PropertyAccessExpression(p) && *p.expression == receiver
            && p.name.text@ == name),
    ensures
        expr_text(r) == method_call_text(receiver_text(receiver), name, exprs_texts(args)),
        expr_ok(r) == (!is_bare_literal(receiver) && expr_ok(receiver) && exprs_ok(args)),
{
    let c = r->CallExpression_0;
    let p = (*c.expression)->PropertyAccessExpression_0;
    assert(expr_text(*c.expression) == receiver_text(receiver) + property_suffix(name));
    assert(expr_ok(*c.expression) == (!is_bare_literal(receiver) && expr_ok(receiver)));
}

/// The head of a loop built by `ForStatement::for_each`.
proof fn lemma_for_each(f: ForStatement, var: Seq<char>, arr: Expression)
    requires
        f.initializer.kind == VariableKind::Let,
        f.initializer.declarations@.len() == 1,
        f.initializer.declarations@[0].name.text@ == var,
        f.initializer.declarations@[0].initializer == Expression::NumericLiteral(0),
        f.condition matches Expression::BinaryExpression(b) && b.operator == BinaryOperator::LessThan
            && (*b.left matches Expression::Identifier(i) && i.text@ == var)
            && (*b.right matches Expression::PropertyAccessExpression(p) && *p.expression == arr
            && p.name.text@ == "length"@),
        f.incrementor matches Expression::PrefixUnaryExpression(u) && u.operator == UnaryOperator::Increment
            && (*u.operand matches Expression::Identifier(i) && i.text@ == var),
        !wraps_for_property(arr),
        !is_bare_literal(arr),
    ensures
        "for ("@ + var_list_text(f.initializer) + "; "@ + expr_text(f.condition) + "; "@ + expr_text(f.incrementor)
            + ")"@ == for_head_text(var, expr_text(arr)),
        var_list_ok(f.initializer),
        expr_ok(f.condition) == expr_ok(arr),
        expr_ok(f.incrementor),
{
    reveal_with_fuel(expr_text, 3);
    reveal_with_fuel(expr_ok, 3);
    let ds = f.initializer.declarations@;
    let texts = ds.map_values(|d: VariableDeclaration| var_decl_text(d));
    assert(texts =~= seq![var + " = "@ + int_text(0)]);
    assert(join(texts, ",\n  "@) == var + " = "@ + int_text(0));
    reveal_strlit("for (let ");
    reveal_strlit("for (");
    reveal_strlit("let ");
    reveal_strlit(" < ");
    reveal_strlit(" ");
    reveal_strlit("<");
    assert(expr_text(f.condition) == var + " "@ + "<"@ + " "@ + expr_text(arr) + property_suffix("length"@));
    assert(expr_text(f.incrementor) == "++"@ + var);
    assert("for ("@ + var_list_text(f.initializer) + "; "@ + expr_text(f.condition) + "; "@ + expr_text(f.incrementor)
        + ")"@ =~= for_head_text(var, expr_text(arr)));
}

pub proof fn lemma_three_stmts(a: Statement, b: Statement, c: Statement)
    ensures
        stmts_indented(seq![a, b, c]) == indent_text(stmt_text(a)) + indent_text(stmt_text(b)) + indent_text(stmt_text(c)),
        stmts_ok(seq![a, b, c]) == (stmt_ok(a) && stmt_ok(b) && stmt_ok(c)),
{
    let s = seq![a, b, c];
    assert(s.subrange(0, 2) =~= seq![a, b]);
    assert(seq![a, b].subrange(0, 1) =~= seq![a]);
    lemma_one_stmt(a);
    assert(seq![a, b][1] == b);
    assert(s[2] == c);
    assert(stmts_indented(seq![a, b]) == stmts_indented(seq![a]) + indent_text(stmt_text(b)));
    assert(stmts_ok(seq![a, b]) == (stmts_ok(seq![a]) && stmt_ok(b)));
}

pub proof fn lemma_two_stmts(a: Statement, b: Statement)
    ensures
        stmts_indented(seq![a, b]) == indent_text(stmt_text(a)) + indent_text(stmt_text(b)),
        stmts_ok(seq![a, b]) == (stmt_ok(a) && stmt_ok(b)),
{
    assert(seq![a, b].subrange(0, 1) =~= seq![a]);
    lemma_one_stmt(a);
    assert(seq![a, b][1] == b);
}

/// The text of `const <name> = <init>`.
pub proof fn lemma_const_text(s: Statement, name: Seq<char>, init: Expression)
    requires
        s matches Statement::VariableStatement(v) && v.kind == VariableKind::Const
            && v.declarations@.len() == 1 && v.declarations@[0].name.text@ == name
            && v.declarations@[0].initializer == init,
    ensures
        stmt_text(s) == "const "@ + name + " = "@ + expr_text(init),
        stmt_ok(s) == expr_ok(init),
{
    let v = s->VariableStatement_0;
    let texts = v.declarations@.map_values(|d: VariableDeclaration| var_decl_text(d));
    assert(texts =~= seq![name + " = "@ + expr_text(init)]);
    assert(join(texts, ",\n  "@) == name + " = "@ + expr_text(init));
    assert(var_list_text(v) =~= "const "@ + name + " = "@ + expr_text(init));
}

/// `w.<method>(<args>)`.
fn writer_call(method: &str, args: Vec<Expression>) -> (r: Expression)
    ensures
        expr_text(r) == method_call_text("w"@, method@, exprs_texts(args@)),
        expr_ok(r) == exprs_ok(args@),
        r is CallExpression,
{
    let w = Expression::id("w");
    let ghost wv = w;
    let ghost a = args@;
    let r = w.into_method_call(method, args);
    proof {
        lemma_method_call(r, wv, method@, a);
    }
    r
}

/// `message.<name>`.
fn message_value(name: &str) -> (r: Expression)
    ensures
        expr_text(r) == message_value_text(name@),
        expr_ok(r),
        r is PropertyAccessExpression,
{
    let m = Expression::id("message");
    let r = m.into_prop(name);
    assert(expr_text(r) == expr_text(m) + property_suffix(name@));
    assert(expr_ok(m) && !is_bare_literal(m));
    r
}

/// One argument.
fn one(e: Expression) -> (r: Vec<Expression>)
    ensures
        r@ == seq![e],
{
    let mut v: Vec<Expression> = Vec::new();
    v.push(e);
    v
}

/// `message.<name> != null && Object.hasOwnProperty.call(message, "<name>")`.
fn field_exists(name: &str) -> (r: Expression)
    ensures
        expr_text(r) == present_text(name@),
        expr_ok(r),
{
    let value = message_value(name);
    let ghost vt = expr_text(value);
    let not_null = BinaryOperator::WeakNotEqual.apply(value, Expression::Null);
    let has = has_property(Expression::id("message"), &Identifier::new(name));
    proof {
        reveal_with_fuel(expr_text, 4);
        reveal_with_fuel(expr_ok, 4);
        reveal_with_fuel(join, 2);
        let c = has->CallExpression_0;
        lemma_two_exprs(c.arguments@[0], c.arguments@[1]);
        assert(c.arguments@ =~= seq![c.arguments@[0], c.arguments@[1]]);
        let p1 = (*c.expression)->PropertyAccessExpression_0;
        assert(expr_text(*p1.expression) == "Object"@ + property_suffix("hasOwnProperty"@));
        assert(expr_text(*c.expression) == "Object"@ + property_suffix("hasOwnProperty"@) + property_suffix("call"@));
        assert(expr_ok(*p1.expression));
        assert(expr_ok(*c.expression));
        let args = seq!["message"@, js_string(name@)];
        assert(args.drop_last() =~= seq!["message"@]);
        assert(join(args, ", "@) == "message"@ + ", "@ + js_string(name@));
        assert(exprs_texts(c.arguments@) =~= args);
        assert(expr_text(has) == method_call_text(
            "Object"@ + property_suffix("hasOwnProperty"@),
            "call"@,
            args,
        ));
        assert(expr_text(not_null) == vt + " "@ + "!="@ + " "@ + "null"@);
        reveal_strlit(" != null && ");
        reveal_strlit(" ");
        reveal_strlit("!=");
        reveal_strlit("null");
        reveal_strlit("&&");
    }
    let r = not_null.and(has);
    assert(expr_text(r) =~= present_text(name@)) by {
        reveal_with_fuel(expr_text, 2);
    }
    assert(expr_ok(r)) by {
        reveal_with_fuel(expr_ok, 3);
    }
    r
}

/// `if (<condition>) { <statement> }`.
fn if_block(condition: Expression, statement: Statement) -> (r: Statement)
    ensures
        stmt_text(r) == if_block_text(expr_text(condition), stmt_text(statement)),
        stmt_ok(r) == (expr_ok(condition) && stmt_ok(statement)),
{
    let mut block = Block::new();
    block.push_statement(statement);
    let ghost ct = expr_text(condition);
    let ghost st = stmt_text(statement);
    proof {
        assert(block.statements@ =~= seq![statement]);
        lemma_one_stmt(statement);
        reveal_strlit("if (");
        reveal_strlit(") ");
        reveal_strlit(") {\n");
        reveal_strlit("{\n");
    }
    let body = Statement::Block(block);
    assert(block_text(body->Block_0) == "{\n"@ + indent_text(st) + "}"@);
    assert(stmt_text(body) == "{\n"@ + indent_text(st) + "}"@);
    let r = Statement::IfStatement(IfStatement { expression: condition, then_statement: Box::new(body), else_statement: None });
    assert(stmt_text(r) =~= if_block_text(ct, st)) by {
        reveal_with_fuel(stmt_text, 2);
    }
    assert(stmt_ok(r) == (expr_ok(condition) && stmt_ok(statement))) by {
        reveal_with_fuel(stmt_ok, 2);
    }
    r
}

/// Where the module `module` of message `parent` finds the function `module` of
/// message `id`: `None` where either has no path or the function cannot be imported
/// from there; `Some(None)` where it is the module's own function; `Some(Some(p))`
/// where it is imported from the relative path `p`.
pub open spec fn function_ref(root: RootScope, parent: usize, id: usize, module: Seq<char>) -> Option<Option<Seq<char>>> {
    match (declaration_path(root, id), declaration_path(root, parent)) {
        (Some(fp), Some(pp)) => {
            let to = fp.map_values(|c: PathComponentV| ts_component_of(c)).push(TsPathComponentV::File(module)).push(
                TsPathComponentV::Function(module),
            );
            let from = pp.map_values(|c: PathComponentV| ts_component_of(c)).push(TsPathComponentV::File(module));
            if import_path_ok(from, to) {
                Some(relative_import_text(from, to))
            } else {
                None
            }
        },
        _ => None,
    }
}

/// Where the encoding module of message `parent` finds the encoding function of
/// message `id` (see `function_ref`).
pub open spec fn encoder_ref(root: RootScope, parent: usize, id: usize) -> Option<Option<Seq<char>>> {
    function_ref(root, parent, id, "encode"@)
}

/// The name under which the encoding module of message `parent` calls the encoding
/// function of message `id`: `e<id>` where it is imported, else `encode`.
pub open spec fn encoder_name(root: RootScope, parent: usize, id: usize) -> Seq<char> {
    match encoder_ref(root, parent, id) {
        Some(Some(_)) => "e"@ + decimal(id as nat),
        _ => "encode"@,
    }
}

/// The expression that names the encoding function of message `field_message_id` in
/// the encoding module of message `parent_message_id`, importing it there where it
/// lives elsewhere.
pub fn encode_message_expr(root: &RootScope, parent_message_id: usize, encode_file: &mut File, field_message_id: usize) -> (r: Result<Expression, ProtoError>)
    ensures
        final(encode_file).name == old(encode_file).name,
        final(encode_file).statements@.len() >= old(encode_file).statements@.len(),
        same_or_one_import_more(old(encode_file).statements@, final(encode_file).statements@),
        encoder_ref(*root, parent_message_id, field_message_id) is None ==> r is Err,
        encoder_ref(*root, parent_message_id, field_message_id) == Some(None::<Seq<char>>) ==> (r is Ok
            && final(encode_file).statements@ == old(encode_file).statements@),
        r matches Ok(e) ==> (e matches Expression::Identifier(i)
            && i.text@ == encoder_name(*root, parent_message_id, field_message_id)),
        encoder_ref(*root, parent_message_id, field_message_id) matches Some(Some(path)) ==> if imports_from(old(encode_file).statements@, import_slot(old(encode_file).statements@, path), path) {
            r is Err && final(encode_file).statements@ == old(encode_file).statements@
        } else {
            r is Ok && final(encode_file).statements@ == old(encode_file).statements@.insert(import_slot(old(encode_file).statements@, path), final(encode_file).statements@[import_slot(old(encode_file).statements@, path)])
                && is_function_import(final(encode_file).statements@[import_slot(old(encode_file).statements@, path)], "e"@ + decimal(field_message_id as nat), "encode"@, path)
        },
{
    let mut encode_path = declaration_ts_path(root, field_message_id)?;
    encode_path.push(TsPathComponent::File("encode".to_string()));
    encode_path.push(TsPathComponent::Function("encode".to_string()));
    let mut current = declaration_ts_path(root, parent_message_id)?;
    current.push(TsPathComponent::File("encode".to_string()));
    if !check_import_path(current.components().as_slice(), encode_path.components().as_slice()) {
        return Err(ProtoError::new("Cannot import an encoding function from its own path"));
    }
    match get_relative_import_string(current.components().as_slice(), encode_path.components().as_slice()) {
        Some(import_string) => {
            let mut alias = String::new();
            alias.append("e");
            push_decimal(&mut alias, field_message_id as u64);
            let mut specifiers: Vec<ImportSpecifier> = Vec::new();
            specifiers.push(ImportSpecifier::new_full(Identifier::new(alias.as_str()), Some(Identifier::new(ENCODE_FUNCTION_NAME))));
            let ghost sv = specifiers@;
            let new_import = ImportDeclaration::import(specifiers, StringLiteral::new(import_string));
            let ghost ni = new_import;
            proof {
                reveal_strlit("e");
                assert(alias@ =~= "e"@ + decimal(field_message_id as nat));
                assert(is_function_import(Statement::ImportDeclaration(Box::new(ni)), "e"@ + decimal(field_message_id as nat), ENCODE_FUNCTION_NAME@, ni.string_literal.text@));
                lemma_import_slot(encode_file.statements@, ni.string_literal.text@);
            }
            ensure_import(encode_file, new_import)?;
            Ok(Expression::Identifier(Identifier::new(alias.as_str())))
        },
        None => Ok(Expression::Identifier(Identifier::new(ENCODE_FUNCTION_NAME))),
    }
}

/// `<encode>(<value>, w.uint32(<key>).fork()).ldelim()`: a nested message, written
/// with its length before it.
pub fn encode_call(encode_func_expr: Expression, field_tag: i64, field_value: Expression) -> (r: Expression)
    requires
        tag_in_range(field_tag),
    ensures
        expr_text(r) == encode_call_text(expr_text(encode_func_expr), field_tag, expr_text(field_value)),
        expr_ok(r) == (expr_ok(encode_func_expr) && expr_ok(field_value)),
{
    let key = key_literal(field_tag, 2);
    proof {
        lemma_one_expr(key);
    }
    let uint32 = writer_call("uint32", one(key));
    let ghost ut = expr_text(uint32);
    let fork = uint32.into_method_call("fork", Vec::new());
    proof {
        lemma_no_exprs();
        lemma_method_call(fork, uint32, "fork"@, Seq::empty());
    }
    let ghost ft = expr_text(fork);
    let ghost vt = expr_text(field_value);
    let ghost vok = expr_ok(field_value);
    let ghost et = expr_text(encode_func_expr);
    let ghost eok = expr_ok(encode_func_expr);
    let mut args: Vec<Expression> = Vec::new();
    args.push(field_value);
    args.push(fork);
    proof {
        lemma_two_exprs(args@[0], args@[1]);
        assert(args@ =~= seq![args@[0], args@[1]]);
        assert(seq![vt, ft].drop_last() =~= seq![vt]);
        reveal_with_fuel(join, 2);
    }
    let call = encode_func_expr.into_call(args);
    assert(expr_text(call) == et + "("@ + vt + ", "@ + ft + ")"@);
    let r = call.into_method_call("ldelim", Vec::new());
    proof {
        lemma_method_call(r, call, "ldelim"@, Seq::empty());
    }
    r
}

/// `if (<present>) { w.uint32(<key>).int32(message.<name>) }`.
pub fn encode_enum_field(js_name: &str, field_tag: i64) -> (r: Statement)
    requires
        tag_in_range(field_tag),
    ensures
        stmt_text(r) == if_block_text(present_text(js_name@), write_text(field_tag, 0, "int32"@, message_value_text(js_name@))),
        stmt_ok(r),
{
    let write = write_call(field_tag, 0, "int32", message_value(js_name));
    if_block(field_exists(js_name), Statement::Expression(write))
}

/// `w.uint32(<key>).<method>(<value>)`.
fn write_call(tag: i64, wire_type: u32, method: &str, value: Expression) -> (r: Expression)
    requires
        tag_in_range(tag),
        wire_type < 8,
    ensures
        expr_text(r) == write_text(tag, wire_type, method@, expr_text(value)),
        expr_ok(r) == expr_ok(value),
{
    let key = key_literal(tag, wire_type);
    proof {
        lemma_one_expr(key);
    }
    let uint32 = writer_call("uint32", one(key));
    let ghost v = value;
    let r = uint32.into_method_call(method, one(value));
    proof {
        lemma_one_expr(v);
        lemma_method_call(r, uint32, method@, seq![v]);
    }
    r
}

/// `if (<present>) { w.uint32(<key>).<type>(message.<name>) }` for a scalar field.
pub fn encode_basic_type_field(js_name: &str, field_type: &FieldType, field_tag: i64) -> (r: Statement)
    requires
        tag_in_range(field_tag),
        is_scalar(field_type@),
    ensures
        stmt_text(r) == if_block_text(
            present_text(js_name@),
            write_text(field_tag, resolved_wire_type(field_type@), scalar_name(field_type@), message_value_text(js_name@)),
        ),
        stmt_ok(r),
{
    let wire_type = field_type.get_basic_wire_type();
    let write = write_call(field_tag, wire_type, field_type.scalar_name(), message_value(js_name));
    if_block(field_exists(js_name), Statement::Expression(write))
}

/// `message.<name>[i]`.
fn element_i(js_name: &str) -> (r: Expression)
    ensures
        expr_text(r) == element_text(js_name@),
        expr_ok(r),
{
    let r = message_value(js_name).into_element(Expression::id("i"));
    assert(expr_text(r) == element_text(js_name@)) by {
        reveal_with_fuel(expr_text, 2);
    }
    assert(expr_ok(r)) by {
        reveal_with_fuel(expr_ok, 2);
    }
    r
}

/// `{ for (...) w.uint32(<key>).<type>(message.<name>[i]) }`: each element with its own key.
pub fn encode_non_packed_elements(js_name: &str, element_type: &FieldType, field_tag: i64) -> (r: Statement)
    requires
        tag_in_range(field_tag),
        is_scalar(element_type@),
    ensures
        stmt_text(r) == non_packed_text(js_name@, element_type@, field_tag),
        stmt_ok(r),
{
    let wire_type = element_type.get_basic_wire_type();
    let write = write_call(field_tag, wire_type, element_type.scalar_name(), element_i(js_name));
    let ghost wt = expr_text(write);
    let array = message_value(js_name);
    let ghost av = array;
    let mut for_stmt = ForStatement::for_each(Identifier::new("i"), array);
    let ghost f0 = for_stmt;
    for_stmt.statement = Box::new(Statement::Expression(write));
    proof {
        lemma_for_each(f0, "i"@, av);
    }
    let s = Statement::For(Box::new(for_stmt));
    assert(stmt_text(s) == for_head_text("i"@, message_value_text(js_name@)) + " "@ + wt) by {
        reveal_with_fuel(stmt_text, 2);
        assert(for_stmt.initializer == f0.initializer && for_stmt.condition == f0.condition
            && for_stmt.incrementor == f0.incrementor);
    }
    assert(stmt_ok(s)) by {
        reveal_with_fuel(stmt_ok, 2);
    }
    let mut block = Block::new();
    block.push_statement(s);
    proof {
        assert(block.statements@ =~= seq![s]);
        lemma_one_stmt(s);
    }
    let r = Statement::Block(block);
    assert(block_text(r->Block_0) == "{\n"@ + indent_text(stmt_text(s)) + "}"@);
    r
}

/// `{ w.uint32(<key>).fork(); for (...) w.<type>(message.<name>[i]); w.ldelim() }`:
/// the elements packed behind one key and their length.
pub fn encode_packed_elements(js_name: &str, element_type: &FieldType, field_tag: i64) -> (r: Statement)
    requires
        tag_in_range(field_tag),
        is_scalar(element_type@),
    ensures
        stmt_text(r) == packed_text(js_name@, element_type@, field_tag),
        stmt_ok(r),
{
    let mut block = Block::new();
    let key = key_literal(field_tag, 2);
    proof {
        lemma_one_expr(key);
    }
    let uint32 = writer_call("uint32", one(key));
    let fork = uint32.into_method_call("fork", Vec::new());
    proof {
        lemma_no_exprs();
        lemma_method_call(fork, uint32, "fork"@, Seq::empty());
    }
    let first = Statement::Expression(fork);
    let element = element_i(js_name);
    let ghost ev = element;
    let write = writer_call(element_type.scalar_name(), one(element));
    proof {
        lemma_one_expr(ev);
    }
    let ghost wt = expr_text(write);
    let array = message_value(js_name);
    let ghost av = array;
    let mut for_stmt = ForStatement::for_each(Identifier::new("i"), array);
    let ghost f0 = for_stmt;
    for_stmt.statement = Box::new(Statement::Expression(write));
    proof {
        lemma_for_each(f0, "i"@, av);
    }
    let second = Statement::For(Box::new(for_stmt));
    assert(stmt_text(second) == for_head_text("i"@, message_value_text(js_name@)) + " "@ + wt) by {
        reveal_with_fuel(stmt_text, 2);
        assert(for_stmt.initializer == f0.initializer && for_stmt.condition == f0.condition
            && for_stmt.incrementor == f0.incrementor);
    }
    assert(stmt_ok(second)) by {
        reveal_with_fuel(stmt_ok, 2);
    }
    let third = Statement::Expression(writer_call("ldelim", Vec::new()));
    proof {
        lemma_no_exprs();
    }
    block.push_statement(first);
    block.push_statement(second);
    block.push_statement(third);
    proof {
        assert(block.statements@ =~= seq![first, second, third]);
        lemma_three_stmts(first, second, third);
    }
    let r = Statement::Block(block);
    assert(block_text(r->Block_0) == "{\n"@ + stmts_indented(seq![first, second, third]) + "}"@);
    assert(stmt_text(r) =~= packed_text(js_name@, element_type@, field_tag));
    r
}

/// `message.<name> != null && message.<name>.length`.
fn non_empty_condition(name: &str) -> (r: Expression)
    ensures
        expr_text(r) == non_empty_text(name@),
        expr_ok(r),
{
    let value = message_value(name);
    let not_null = BinaryOperator::WeakNotEqual.apply(value, Expression::Null);
    let value2 = message_value(name);
    let ghost v2 = value2;
    let length = value2.into_prop("length");
    let condition = not_null.and(length);
    proof {
        reveal_with_fuel(expr_text, 3);
        reveal_with_fuel(expr_ok, 3);
        reveal_strlit(" != null && ");
        reveal_strlit(" ");
        reveal_strlit("!=");
        reveal_strlit("null");
        reveal_strlit("&&");
        assert(expr_text(length) == expr_text(v2) + property_suffix("length"@));
        assert(expr_text(condition) =~= non_empty_text(name@));
    }
    condition
}

/// `if (message.<name> != null && message.<name>.length) <elements>`, packed where
/// the element type can be.
pub fn encode_basic_repeated_type_field(js_name: &str, field_type: &FieldType, field_tag: i64) -> (r: Statement)
    requires
        tag_in_range(field_tag),
        is_scalar(field_type@),
    ensures
        stmt_text(r) == repeated_scalar_text(js_name@, field_type@, field_tag),
        stmt_ok(r),
{
    let condition = non_empty_condition(js_name);
    let elements = match field_type.packed_wire_type() {
        Some(_) => encode_packed_elements(js_name, field_type, field_tag),
        None => encode_non_packed_elements(js_name, field_type, field_tag),
    };
    let r = Statement::IfStatement(IfStatement { expression: condition, then_statement: Box::new(elements), else_statement: None });
    assert(stmt_text(r) =~= repeated_scalar_text(js_name@, field_type@, field_tag));
    r
}

/// `Object.keys(<obj>)`.
pub fn object_keys(obj_expr: Expression) -> (r: Expression)
    ensures
        expr_text(r) == object_keys_text(expr_text(obj_expr)),
        expr_ok(r) == expr_ok(obj_expr),
{
    let object = Expression::id("Object");
    let ghost ov = object;
    let ghost o = obj_expr;
    let r = object.into_method_call("keys", one(obj_expr));
    proof {
        lemma_one_expr(o);
        lemma_method_call(r, ov, "keys"@, seq![o]);
    }
    r
}

/// The wire type of a map key, where the type may be one.
pub open spec fn map_key_wire(t: TypeV) -> Option<u32> {
    match t {
        TypeV::Bool => Some(0),
        TypeV::Fixed32 => Some(5),
        TypeV::Fixed64 => Some(1),
        TypeV::Int32 => Some(0),
        TypeV::Int64 => Some(0),
        TypeV::Sfixed32 => Some(5),
        TypeV::Sfixed64 => Some(1),
        TypeV::Sint32 => Some(0),
        TypeV::Sint64 => Some(0),
        TypeV::String => Some(2),
        TypeV::Uint32 => Some(0),
        TypeV::Uint64 => Some(0),
        _ => None,
    }
}

fn map_key_wire_type(t: &FieldType) -> (r: Option<u32>)
    ensures
        r == map_key_wire(t@),
{
    match t {
        FieldType::Bool => Some(0),
        FieldType::Fixed32 => Some(5),
        FieldType::Fixed64 => Some(1),
        FieldType::Int32 => Some(0),
        FieldType::Int64 => Some(0),
        FieldType::Sfixed32 => Some(5),
        FieldType::Sfixed64 => Some(1),
        FieldType::Sint32 => Some(0),
        FieldType::Sint64 => Some(0),
        FieldType::String => Some(2),
        FieldType::Uint32 => Some(0),
        FieldType::Uint64 => Some(0),
        _ => None,
    }
}

/// `w.uint32(<key>).fork().uint32(<8 | key wire>).<key type>(k)`: an entry's key.
pub fn encode_key(field_tag: i64, key_type: &FieldType, key_wire: u32) -> (r: Expression)
    requires
        tag_in_range(field_tag),
        map_key_wire(key_type@) == Some(key_wire),
    ensures
        expr_text(r) == entry_key_text(field_tag, key_type@, key_wire),
        expr_ok(r),
        r is CallExpression,
{
    let key = key_literal(field_tag, 2);
    proof {
        lemma_one_expr(key);
        lemma_no_exprs();
    }
    let first = writer_call("uint32", one(key));
    let fork = first.into_method_call("fork", Vec::new());
    proof {
        lemma_method_call(fork, first, "fork"@, Seq::empty());
    }
    let wire = Expression::NumericLiteral(8 + key_wire as i64);
    let ghost wv = wire;
    let second = fork.into_method_call("uint32", one(wire));
    proof {
        lemma_one_expr(wv);
        lemma_method_call(second, fork, "uint32"@, seq![wv]);
    }
    let k = Expression::id("k");
    let ghost kv = k;
    let r = second.into_method_call(key_type.scalar_name(), one(k));
    proof {
        lemma_one_expr(kv);
        lemma_method_call(r, second, scalar_name(key_type@), seq![kv]);
    }
    r
}

/// `<key>.uint32(<16 | value wire>).<value type>(v).ldelim()`: an entry's scalar value.
pub fn encode_basic_key_value(basic: &FieldType, encode_key_expr: Expression) -> (r: Expression)
    requires
        is_scalar(basic@),
    ensures
        expr_text(r) == entry_value_text(receiver_text(encode_key_expr), basic@),
        expr_ok(r) == (!is_bare_literal(encode_key_expr) && expr_ok(encode_key_expr)),
{
    let wire_type = basic.get_basic_wire_type();
    let ghost key = encode_key_expr;
    let wire = Expression::NumericLiteral(16 + wire_type as i64);
    let ghost wv = wire;
    let first = encode_key_expr.into_method_call("uint32", one(wire));
    proof {
        lemma_one_expr(wv);
        lemma_method_call(first, key, "uint32"@, seq![wv]);
    }
    let v = Expression::id("v");
    let ghost vv = v;
    let second = first.into_method_call(basic.scalar_name(), one(v));
    proof {
        lemma_one_expr(vv);
        lemma_method_call(second, first, scalar_name(basic@), seq![vv]);
    }
    let r = second.into_method_call("ldelim", Vec::new());
    proof {
        lemma_no_exprs();
        lemma_method_call(r, second, "ldelim"@, Seq::empty());
    }
    r
}

/// `const ks = Object.keys(message.<name>)`.
fn keys_declaration(js_name: &str) -> (r: Statement)
    ensures
        stmt_text(r) == "const ks = "@ + object_keys_text(message_value_text(js_name@)),
        stmt_ok(r),
{
    let keys = object_keys(message_value(js_name));
    let ghost kv = keys;
    let r = Statement::VariableStatement(VariableDeclarationList::declare_const(Identifier::new("ks"), keys));
    proof {
        lemma_const_text(r, "ks"@, kv);
        reveal_strlit("const ks = ");
        reveal_strlit("const ");
        reveal_strlit("ks");
        reveal_strlit(" = ");
        assert(stmt_text(r) =~= "const ks = "@ + object_keys_text(message_value_text(js_name@)));
    }
    r
}

/// `const k = ks[i]`.
fn key_declaration() -> (r: Statement)
    ensures
        stmt_text(r) == "const k = ks[i]"@,
        stmt_ok(r),
{
    let ks_i = Expression::id("ks").into_element(Expression::id("i"));
    let ghost ks_iv = ks_i;
    assert(expr_text(ks_i) == "ks"@ + "["@ + "i"@ + "]"@ && expr_ok(ks_i)) by {
        reveal_with_fuel(expr_text, 2);
        reveal_with_fuel(expr_ok, 2);
    }
    let r = Statement::VariableStatement(VariableDeclarationList::declare_const(Identifier::new("k"), ks_i));
    proof {
        lemma_const_text(r, "k"@, ks_iv);
        reveal_strlit("const k = ks[i]");
        reveal_strlit("const ");
        reveal_strlit("k");
        reveal_strlit(" = ");
        reveal_strlit("ks");
        reveal_strlit("i");
        reveal_strlit("[");
        reveal_strlit("]");
        assert(stmt_text(r) =~= "const k = ks[i]"@);
    }
    r
}

/// `const v = message.<name>[k]`.
fn value_declaration(js_name: &str) -> (r: Statement)
    ensures
        stmt_text(r) == "const v = "@ + message_value_text(js_name@) + "[k]"@,
        stmt_ok(r),
{
    let mv = message_value(js_name).into_element(Expression::id("k"));
    let ghost mvv = mv;
    assert(expr_text(mv) == message_value_text(js_name@) + "["@ + "k"@ + "]"@ && expr_ok(mv)) by {
        reveal_with_fuel(expr_text, 2);
        reveal_with_fuel(expr_ok, 2);
    }
    let r = Statement::VariableStatement(VariableDeclarationList::declare_const(Identifier::new("v"), mv));
    proof {
        lemma_const_text(r, "v"@, mvv);
        reveal_strlit("const v = ");
        reveal_strlit("const ");
        reveal_strlit("v");
        reveal_strlit(" = ");
        reveal_strlit("[k]");
        reveal_strlit("k");
        reveal_strlit("[");
        reveal_strlit("]");
        assert(stmt_text(r) =~= "const v = "@ + message_value_text(js_name@) + "[k]"@);
    }
    r
}

/// `for (let i = 0; i < ks.length; ++i) { const k = ks[i]; const v = message.<name>[k]; <entry> }`.
#[verifier::rlimit(40)]
fn entries_loop(js_name: &str, field_tag: i64, key_type: &FieldType, key_wire: u32, value_type: &FieldType) -> (r: Statement)
    requires
        tag_in_range(field_tag),
        map_key_wire(key_type@) == Some(key_wire),
        is_scalar(value_type@),
    ensures
        stmt_text(r) == for_head_text("i"@, "ks"@) + " {\n"@ + indent_text("const k = ks[i]"@) + indent_text(
            "const v = "@ + message_value_text(js_name@) + "[k]"@,
        ) + indent_text(entry_value_text(entry_key_text(field_tag, key_type@, key_wire), value_type@)) + "}"@,
        stmt_ok(r),
{
    let mut body = Block::new();
    let k_decl = key_declaration();
    let v_decl = value_declaration(js_name);
    let key = encode_key(field_tag, key_type, key_wire);
    let entry = encode_basic_key_value(value_type, key);
    let entry_stmt = Statement::Expression(entry);
    body.push_statement(k_decl);
    body.push_statement(v_decl);
    body.push_statement(entry_stmt);
    proof {
        assert(body.statements@ =~= seq![k_decl, v_decl, entry_stmt]);
        lemma_three_stmts(k_decl, v_decl, entry_stmt);
    }
    let ks = Expression::id("ks");
    let ghost ksv = ks;
    let mut for_stmt = ForStatement::for_each(Identifier::new("i"), ks);
    let ghost f0 = for_stmt;
    let body_stmt = Statement::Block(body);
    assert(block_text(body_stmt->Block_0) == "{\n"@ + stmts_indented(seq![k_decl, v_decl, entry_stmt]) + "}"@);
    assert(stmt_text(body_stmt) == "{\n"@ + stmts_indented(seq![k_decl, v_decl, entry_stmt]) + "}"@);
    for_stmt.statement = Box::new(body_stmt);
    proof {
        lemma_for_each(f0, "i"@, ksv);
    }
    let r = Statement::For(Box::new(for_stmt));
    assert(stmt_text(r) == for_head_text("i"@, "ks"@) + " "@ + stmt_text(body_stmt)) by {
        assert(for_stmt.initializer == f0.initializer && for_stmt.condition == f0.condition
            && for_stmt.incrementor == f0.incrementor);
    }
    assert(stmt_ok(r)) by {
        reveal_with_fuel(stmt_ok, 2);
    }
    proof {
        reveal_strlit(" {\n");
        reveal_strlit(" ");
        reveal_strlit("{\n");
        assert(stmt_text(r) =~= for_head_text("i"@, "ks"@) + " {\n"@ + indent_text("const k = ks[i]"@) + indent_text(
            "const v = "@ + message_value_text(js_name@) + "[k]"@,
        ) + indent_text(entry_value_text(entry_key_text(field_tag, key_type@, key_wire), value_type@)) + "}"@);
    }
    r
}

/// Whether a map field can be encoded: its key can be a map key, its value is a scalar.
pub open spec fn map_encodable(k: TypeV, v: TypeV) -> bool {
    map_key_wire(k) is Some && is_scalar(v)
}

/// `if (<present>) { const ks = Object.keys(message.<name>); for (...) { const k = ks[i];
/// const v = message.<name>[k]; <entry> } }`; values that are enums or messages are
/// not encoded yet.
pub fn encode_map_field(js_name: &str, field_tag: i64, key_type: &FieldType, value_type: &FieldType) -> (r: Result<Statement, ProtoError>)
    requires
        tag_in_range(field_tag),
    ensures
        r is Ok <==> map_encodable(key_type@, value_type@),
        r matches Ok(st) ==> stmt_ok(st) && stmt_text(st) == map_field_text(js_name@, field_tag, key_type@, value_type@),
        map_key_wire(key_type@) is None ==> (r matches Err(e)
            && e@ == ProtoErrorV::Other("A map key must be an integer, a boolean or a string"@)),
        map_key_wire(key_type@) is Some && (value_type@ is Enum || value_type@ is Message) ==> (r matches Err(e)
            && e@ == ProtoErrorV::NotImplemented("encoding of map values that are enums or messages"@)),
        map_key_wire(key_type@) is Some && (value_type@ is Repeated || value_type@ is MapOf) ==> (r matches Err(e)
            && e@ == ProtoErrorV::Other("A map value cannot be a repeated field or a map"@)),
{
    let key_wire = match map_key_wire_type(key_type) {
        Some(w) => w,
        None => return Err(ProtoError::new("A map key must be an integer, a boolean or a string")),
    };
    match value_type {
        FieldType::Enum(_) | FieldType::Message(_) => {
            return Err(ProtoError::NotImplemented("encoding of map values that are enums or messages".to_string()));
        },
        FieldType::Repeated(_) | FieldType::MapOf(_, _) => {
            return Err(ProtoError::new("A map value cannot be a repeated field or a map"));
        },
        _ => {},
    }
    let mut then_block = Block::new();
    let first = keys_declaration(js_name);
    then_block.push_statement(first);
    let second = entries_loop(js_name, field_tag, key_type, key_wire, value_type);
    then_block.push_statement(second);
    proof {
        assert(then_block.statements@ =~= seq![first, second]);
        lemma_two_stmts(first, second);
    }
    let condition = field_exists(js_name);
    let then_stmt = Statement::Block(then_block);
    assert(block_text(then_stmt->Block_0) == "{\n"@ + stmts_indented(seq![first, second]) + "}"@);
    assert(stmt_text(then_stmt) == "{\n"@ + stmts_indented(seq![first, second]) + "}"@);
    let r = Statement::IfStatement(IfStatement {
        expression: condition,
        then_statement: Box::new(then_stmt),
        else_statement: None,
    });
    proof {
        reveal_strlit(") {\n");
        reveal_strlit(") ");
        reveal_strlit("{\n");
        assert(map_key_wire(key_type@)->0 == key_wire);
        assert(stmt_text(r) =~= map_field_text(js_name@, field_tag, key_type@, value_type@));
    }
    assert(stmt_ok(r)) by {
        reveal_with_fuel(stmt_ok, 2);
    }
    Ok(r)
}

/// `fs` with `f` put after every field whose number is at most its own.
pub open spec fn insert_by_tag(fs: Seq<FieldV>, f: FieldV) -> Seq<FieldV>
    decreases fs.len(),
{
    if fs.len() == 0 {
        seq![f]
    } else if fs[0].tag > f.tag {
        seq![f] + fs
    } else {
        seq![fs[0]] + insert_by_tag(fs.drop_first(), f)
    }
}

/// The fields ordered by number; fields with the same number keep their order.
pub open spec fn sort_by_tag(fs: Seq<FieldV>) -> Seq<FieldV>
    decreases fs.len(),
{
    if fs.len() == 0 {
        Seq::empty()
    } else {
        insert_by_tag(sort_by_tag(fs.drop_last()), fs.last())
    }
}

proof fn lemma_insert_at(fs: Seq<FieldV>, f: FieldV, p: int)
    requires
        0 <= p <= fs.len(),
        forall|q: int| 0 <= q < p ==> #[trigger] fs[q].tag <= f.tag,
        p < fs.len() ==> fs[p].tag > f.tag,
    ensures
        insert_by_tag(fs, f) == fs.insert(p, f),
    decreases fs.len(),
{
    if fs.len() == 0 {
        assert(fs.insert(p, f) =~= seq![f]);
    } else if p == 0 {
        assert(fs.insert(0, f) =~= seq![f] + fs);
    } else {
        assert forall|q: int| 0 <= q < p - 1 implies #[trigger] fs.drop_first()[q].tag <= f.tag by {
            assert(fs.drop_first()[q] == fs[q + 1]);
        }
        lemma_insert_at(fs.drop_first(), f, p - 1);
        assert(fs.insert(p, f) =~= seq![fs[0]] + fs.drop_first().insert(p - 1, f));
    }
}

/// The fields ordered by number, stably.
pub fn sort_fields_by_tag(fields: Vec<Field>) -> (r: Vec<Field>)
    ensures
        crate::package::fields_view(r@) == sort_by_tag(crate::package::fields_view(fields@)),
{
    let ghost fv = crate::package::fields_view(fields@);
    let mut sorted: Vec<Field> = Vec::new();
    let mut rest = fields;
    let ghost total = fv.len();
    while rest.len() > 0
        invariant
            rest@.len() <= total,
            total == fv.len(),
            crate::package::fields_view(rest@) == fv.subrange(total - rest@.len(), total as int),
            crate::package::fields_view(sorted@) == sort_by_tag(fv.subrange(0, total - rest@.len())),
        decreases rest@.len(),
    {
        let ghost done = total - rest@.len();
        let ghost rest_before = rest@;
        let f = rest.remove(0);
        proof {
            assert(crate::package::fields_view(rest_before)[0] == f@);
            assert(crate::package::fields_view(rest@) =~= crate::package::fields_view(rest_before).drop_first());
            assert(fv[done] == f@);
            assert(fv.subrange(0, done + 1).drop_last() =~= fv.subrange(0, done));
        }
        let ghost sv = crate::package::fields_view(sorted@);
        let mut p: usize = 0;
        while p < sorted.len() && sorted[p].tag <= f.tag
            invariant
                p <= sorted@.len(),
                sv == crate::package::fields_view(sorted@),
                forall|q: int| 0 <= q < p ==> #[trigger] sv[q].tag <= f.tag,
            decreases sorted@.len() - p,
        {
            assert(sv[p as int] == sorted@[p as int]@);
            p = p + 1;
        }
        proof {
            if p < sorted@.len() {
                assert(sv[p as int] == sorted@[p as int]@);
            }
            lemma_insert_at(sv, f@, p as int);
        }
        sorted.insert(p, f);
        assert(crate::package::fields_view(sorted@) =~= sv.insert(p as int, f@));
    }
    assert(fv.subrange(0, total as int) =~= fv);
    sorted
}

/// The statement that writes a field (named by its JSON name), by its type: a
/// scalar or an enum with its key where it is set; a message through its encoding
/// function; a repeated field element by element (scalars packed where they can be);
/// a map entry by entry.
pub open spec fn field_encode_text(root: RootScope, parent: usize, f: FieldV) -> Seq<char> {
    let name = json_name_of(f.attributes, f.name);
    let tag = f.tag as i64;
    match f.field_type {
        TypeV::Enum(_) => if_block_text(present_text(name), write_text(tag, 0, "int32"@, message_value_text(name))),
        TypeV::Message(m) => if_block_text(
            present_text(name),
            encode_call_text(encoder_name(root, parent, m as usize), tag, message_value_text(name)),
        ),
        TypeV::Repeated(e) => match *e {
            TypeV::Enum(_) => repeated_scalar_text(name, TypeV::Int32, tag),
            TypeV::Message(m) => "if ("@ + non_empty_text(name) + ") "@ + for_head_text("i"@, message_value_text(name))
                + " "@ + encode_call_text(encoder_name(root, parent, m as usize), tag, element_text(name)),
            t => repeated_scalar_text(name, t, tag),
        },
        TypeV::MapOf(k, v) => map_field_text(name, tag, *k, *v),
        t => if_block_text(present_text(name), write_text(tag, resolved_wire_type(t), scalar_name(t), message_value_text(name))),
    }
}

/// Whether a field's type can be written: no repeated field of repeated fields or
/// maps, and maps of scalars only.
pub open spec fn encodable_type(t: TypeV) -> bool {
    match t {
        TypeV::Repeated(e) => !(*e is Repeated || *e is MapOf),
        TypeV::MapOf(k, v) => map_encodable(*k, *v),
        _ => true,
    }
}

/// Whether writing a field of this type calls the encoding function of a message.
pub open spec fn refers_to_message(t: TypeV) -> bool {
    match t {
        TypeV::Message(_) => true,
        TypeV::Repeated(e) => *e is Message,
        _ => false,
    }
}

/// The message whose generated function writing or reading a field calls: that of a
/// message field or of the elements of a repeated one.
pub open spec fn held_message(t: TypeV) -> Option<usize> {
    match t {
        TypeV::Message(m) => Some(m as usize),
        TypeV::Repeated(e) => match *e {
            TypeV::Message(m) => Some(m as usize),
            _ => None,
        },
        _ => None,
    }
}

/// Whether the encoding function that writing a field of type `t` calls is found.
pub open spec fn encoder_found(root: RootScope, parent: usize, t: TypeV) -> bool {
    held_message(t) matches Some(m) ==> encoder_ref(root, parent, m) is Some
}

/// The path from which the encoding module of message `parent` imports the encoding
/// function that writing a field of type `t` calls, where it lives in another module.
pub open spec fn encoder_import_path(root: RootScope, parent: usize, t: TypeV) -> Option<Seq<char>> {
    match held_message(t) {
        Some(m) => match encoder_ref(root, parent, m) {
            Some(Some(p)) => Some(p),
            _ => None,
        },
        None => None,
    }
}

/// For each field, the path its encoding function is imported from, if any (see
/// `encoder_import_path`).
pub open spec fn encoder_paths(root: RootScope, parent: usize, fs: Seq<FieldV>) -> Seq<Option<Seq<char>>> {
    fs.map_values(|f: FieldV| encoder_import_path(root, parent, f.field_type))
}

/// Whether the encoding module of a message can be generated: each field number in
/// range, each field of a type that can be written whose encoding function, where it
/// calls one, is found, and, taking the fields by number, each such function imported
/// from a path of its own.
pub open spec fn encode_succeeds(root: RootScope, m: MessageScope) -> bool {
    let fs = message_fields_of(m.entries@);
    &&& forall|k: int| 0 <= k < fs.len() ==> tag_in_range(#[trigger] fs[k].tag)
    &&& forall|k: int| 0 <= k < fs.len() ==> encodable_type(#[trigger] fs[k].field_type@)
        && encoder_found(root, m.id, fs[k].field_type@)
    &&& fresh_paths(encoder_paths(root, m.id, sort_by_tag(crate::package::fields_view(fs))))
}

/// Whether the encoding module of message `parent` holds the import that writing a
/// field of type `t` needs: the encoding function of the message it holds, imported
/// under `e<id>` where it lives in another module.
pub open spec fn has_encoder_import(ss: Seq<Statement>, root: RootScope, parent: usize, t: TypeV) -> bool {
    held_message(t) matches Some(m) ==> (encoder_ref(root, parent, m) matches Some(Some(path))
        ==> has_function_import(ss, "e"@ + decimal(m as nat), "encode"@, path))
}

/// `if (message.<name> != null && message.<name>.length) for (...) <encode>(message.<name>[i], ...)`.
fn encode_repeated_message_field(name: &str, tag: i64, encode: Expression) -> (r: Statement)
    requires
        tag_in_range(tag),
        encode is Identifier,
    ensures
        stmt_ok(r),
        stmt_text(r) == "if ("@ + non_empty_text(name@) + ") "@ + for_head_text("i"@, message_value_text(name@))
            + " "@ + encode_call_text(expr_text(encode), tag, element_text(name@)),
{
    assert(expr_ok(encode));
    let condition = non_empty_condition(name);
    let array = message_value(name);
    let ghost av = array;
    let mut for_stmt = ForStatement::for_each(Identifier::new("i"), array);
    let ghost f0 = for_stmt;
    let call = encode_call(encode, tag, element_i(name));
    let body = Statement::Expression(call);
    for_stmt.statement = Box::new(body);
    proof {
        lemma_for_each(f0, "i"@, av);
    }
    let loop_stmt = Statement::For(Box::new(for_stmt));
    assert(stmt_text(loop_stmt) == for_head_text("i"@, message_value_text(name@)) + " "@ + expr_text(call)) by {
        reveal_with_fuel(stmt_text, 2);
        assert(for_stmt.initializer == f0.initializer && for_stmt.condition == f0.condition
            && for_stmt.incrementor == f0.incrementor);
    }
    assert(stmt_ok(loop_stmt)) by {
        reveal_with_fuel(stmt_ok, 2);
    }
    let r = Statement::IfStatement(IfStatement {
        expression: condition,
        then_statement: Box::new(loop_stmt),
        else_statement: None,
    });
    r
}

/// The statement that writes one field.
#[verifier::rlimit(50)]
fn encode_field(root: &RootScope, message_id: usize, file: &mut File, field: &Field) -> (r: Result<Statement, ProtoError>)
    requires
        tag_in_range(field.tag),
    ensures
        final(file).name == old(file).name,
        final(file).statements@.len() >= old(file).statements@.len(),
        !encodable_type(field.field_type@) ==> r is Err,
        r matches Ok(s) ==> stmt_ok(s) && stmt_text(s) == field_encode_text(*root, message_id, field@),
        encodable_type(field.field_type@) && !refers_to_message(field.field_type@) ==> r is Ok,
        same_or_one_import_more(old(file).statements@, final(file).statements@),
        r is Ok ==> has_encoder_import(final(file).statements@, *root, message_id, field.field_type@),
        all_imports(old(file).statements@) ==> (r is Ok <==> (encodable_type(field.field_type@)
            && encoder_found(*root, message_id, field.field_type@)
            && (encoder_import_path(*root, message_id, field.field_type@) matches Some(p) ==> !imports_path(old(file).statements@, p)))),
        all_imports(old(file).statements@) && r is Ok ==> all_imports(final(file).statements@),
        all_imports(old(file).statements@) && r is Ok ==> forall|q: Seq<char>| #[trigger] imports_path(final(file).statements@, q)
            <==> (imports_path(old(file).statements@, q) || encoder_import_path(*root, message_id, field.field_type@) == Some(q)),
        all_imports(old(file).statements@) && r is Ok ==> match encoder_import_path(*root, message_id, field.field_type@) {
            Some(p) => final(file).statements@ == old(file).statements@.push(final(file).statements@.last())
                && is_function_import(final(file).statements@.last(), "e"@ + decimal(held_message(field.field_type@)->0 as nat), "encode"@, p),
            None => final(file).statements@ == old(file).statements@,
        },
{
    let js_name = field.json_name();
    let name = js_name.as_str();
    let ghost ft = field.field_type@;
    let ghost before = file.statements@;
    match &field.field_type {
        FieldType::Enum(_) => Ok(encode_enum_field(name, field.tag)),
        FieldType::Message(m) => {
            let found = encode_message_expr(root, message_id, file, *m);
            proof {
                if all_imports(before) {
                    lemma_function_import_outcome(before, file.statements@, encoder_ref(*root, message_id, *m), found is Ok);
                }
            }
            let encode = found?;
            proof {
                if let Some(Some(path)) = encoder_ref(*root, message_id, *m) {
                    lemma_import_slot(before, path);
                    assert(is_function_import(file.statements@[import_slot(before, path)], "e"@ + decimal(*m as nat), "encode"@, path));
                    assert(has_function_import(file.statements@, "e"@ + decimal(*m as nat), "encode"@, path));
                    if all_imports(before) {
                        lemma_slot_after_all_imports(before, path);
                        assert(file.statements@ =~= before.push(file.statements@.last()));
                    }
                }
            }
            assert(expr_ok(encode));
            let call = encode_call(encode, field.tag, message_value(name));
            Ok(if_block(field_exists(name), Statement::Expression(call)))
        },
        FieldType::Repeated(element) => {
            match &**element {
                FieldType::Enum(_) => {
                    let r = encode_basic_repeated_type_field(name, &FieldType::Int32, field.tag);
                    Ok(r)
                },
                FieldType::Message(m) => {
                    assert(ft == TypeV::Repeated(Box::new(type_view(**element))));
                    assert(type_view(**element) is Message);
                    assert(refers_to_message(ft));
                    let found = encode_message_expr(root, message_id, file, *m);
                    proof {
                        if all_imports(before) {
                            lemma_function_import_outcome(before, file.statements@, encoder_ref(*root, message_id, *m), found is Ok);
                        }
                    }
                    let encode = found?;
                    proof {
                        if let Some(Some(path)) = encoder_ref(*root, message_id, *m) {
                            lemma_import_slot(before, path);
                            assert(is_function_import(file.statements@[import_slot(before, path)], "e"@ + decimal(*m as nat), "encode"@, path));
                            assert(has_function_import(file.statements@, "e"@ + decimal(*m as nat), "encode"@, path));
                            if all_imports(before) {
                                lemma_slot_after_all_imports(before, path);
                                assert(file.statements@ =~= before.push(file.statements@.last()));
                            }
                        }
                    }
                    Ok(encode_repeated_message_field(name, field.tag, encode))
                },
                FieldType::Repeated(_) | FieldType::MapOf(_, _) => Err(ProtoError::new("A repeated field cannot hold a repeated field or a map")),
                basic => Ok(encode_basic_repeated_type_field(name, basic, field.tag)),
            }
        },
        FieldType::MapOf(k, v) => encode_map_field(name, field.tag, &**k, &**v),
        basic => Ok(encode_basic_type_field(name, basic, field.tag)),
    }
}

/// The fields written one after another, each indented.
pub open spec fn fields_encode_text(root: RootScope, parent: usize, fs: Seq<FieldV>) -> Seq<char>
    decreases fs.len(),
{
    if fs.len() == 0 {
        Seq::empty()
    } else {
        fields_encode_text(root, parent, fs.drop_last()) + indent_text(field_encode_text(root, parent, fs.last()))
    }
}

/// The encoding function of a message: the writer given or a new one, each field in
/// the order of the field numbers, then the writer.
pub open spec fn encode_function_text(root: RootScope, m: MessageScope) -> Seq<char> {
    "export function encode(message: "@ + encode_type_name_of(m.name@) + ", writer?: Writer): Writer {\n"@
        + indent_text("const w = writer || "@ + method_call_text("Writer"@, "create"@, Seq::empty()))
        + fields_encode_text(root, m.id, sort_by_tag(crate::package::fields_view(message_fields_of(m.entries@))))
        + indent_text("return w"@) + "}"@
}

/// Inserting keeps the fields and adds one.
proof fn lemma_insert_keeps_fields(fs: Seq<FieldV>, f: FieldV)
    ensures
        insert_by_tag(fs, f).len() == fs.len() + 1,
        forall|x: FieldV| insert_by_tag(fs, f).contains(x) <==> (fs.contains(x) || x == f),
    decreases fs.len(),
{
    if fs.len() > 0 && fs[0].tag <= f.tag {
        let d = fs.drop_first();
        lemma_insert_keeps_fields(d, f);
        let r = insert_by_tag(fs, f);
        let rr = insert_by_tag(d, f);
        assert(r == seq![fs[0]] + rr);
        assert forall|x: FieldV| r.contains(x) <==> (fs.contains(x) || x == f) by {
            assert(rr.contains(x) <==> (d.contains(x) || x == f));
            if r.contains(x) {
                let i = choose|i: int| 0 <= i < r.len() && r[i] == x;
                if i > 0 {
                    assert(rr[i - 1] == x);
                    assert(rr.contains(x));
                    if d.contains(x) {
                        let j = choose|j: int| 0 <= j < d.len() && d[j] == x;
                        assert(fs[j + 1] == x);
                    }
                } else {
                    assert(fs[0] == x);
                }
            }
            if fs.contains(x) {
                let j = choose|j: int| 0 <= j < fs.len() && fs[j] == x;
                if j == 0 {
                    assert(r[0] == x);
                } else {
                    assert(d[j - 1] == x);
                    assert(d.contains(x));
                    assert(rr.contains(x));
                    let i = choose|i: int| 0 <= i < rr.len() && rr[i] == x;
                    assert(r[i + 1] == x);
                }
            }
            if x == f {
                assert(rr.contains(x));
                let i = choose|i: int| 0 <= i < rr.len() && rr[i] == x;
                assert(r[i + 1] == x);
            }
        }
    } else if fs.len() > 0 {
        let r = insert_by_tag(fs, f);
        assert forall|x: FieldV| r.contains(x) <==> (fs.contains(x) || x == f) by {
            if r.contains(x) {
                let i = choose|i: int| 0 <= i < r.len() && r[i] == x;
                if i > 0 {
                    assert(fs[i - 1] == x);
                }
            }
            if fs.contains(x) {
                let j = choose|j: int| 0 <= j < fs.len() && fs[j] == x;
                assert(r[j + 1] == x);
            }
            if x == f {
                assert(r[0] == x);
            }
        }
    } else {
        assert(insert_by_tag(fs, f) == seq![f]);
        assert forall|x: FieldV| insert_by_tag(fs, f).contains(x) <==> (fs.contains(x) || x == f) by {
            if x == f {
                assert(seq![f][0] == f);
            }
        }
    }
}

/// Sorting keeps the fields.
proof fn lemma_sort_keeps_fields(fs: Seq<FieldV>)
    ensures
        sort_by_tag(fs).len() == fs.len(),
        forall|x: FieldV| sort_by_tag(fs).contains(x) <==> fs.contains(x),
    decreases fs.len(),
{
    if fs.len() > 0 {
        lemma_sort_keeps_fields(fs.drop_last());
        lemma_insert_keeps_fields(sort_by_tag(fs.drop_last()), fs.last());
        assert forall|x: FieldV| sort_by_tag(fs).contains(x) <==> fs.contains(x) by {
            if fs.drop_last().contains(x) {
                let j = choose|j: int| 0 <= j < fs.drop_last().len() && fs.drop_last()[j] == x;
                assert(fs[j] == x);
            }
            if fs.contains(x) {
                let j = choose|j: int| 0 <= j < fs.len() && fs[j] == x;
                if j < fs.len() - 1 {
                    assert(fs.drop_last()[j] == x);
                }
            }
        }
    }
}

/// `const w = writer || Writer.create()`.
fn writer_declaration() -> (r: Statement)
    ensures
        stmt_text(r) == "const w = writer || "@ + method_call_text("Writer"@, "create"@, Seq::empty()),
        stmt_ok(r),
{
    let writer_type = Expression::id("Writer");
    let ghost wt = writer_type;
    let create = writer_type.into_method_call("create", Vec::new());
    proof {
        lemma_no_exprs();
        lemma_method_call(create, wt, "create"@, Seq::empty());
    }
    let init = BinaryOperator::LogicalOr.apply(Expression::id("writer"), create);
    let ghost iv = init;
    let r = Statement::VariableStatement(VariableDeclarationList::declare_const(Identifier::new("w"), init));
    proof {
        lemma_const_text(r, "w"@, iv);
        reveal_strlit("const w = writer || ");
        reveal_strlit("const ");
        reveal_strlit("w");
        reveal_strlit(" = ");
        reveal_strlit("writer");
        reveal_strlit(" ");
        reveal_strlit("||");
        assert(expr_text(iv) == "writer"@ + " "@ + "||"@ + " "@ + expr_text(create)) by {
            reveal_with_fuel(expr_text, 2);
        }
        assert(stmt_text(r) =~= "const w = writer || "@ + method_call_text("Writer"@, "create"@, Seq::empty()));
        assert(expr_ok(iv)) by {
            reveal_with_fuel(expr_ok, 2);
        }
    }
    r
}

/// The text of the encoding function built by `compile_encode`.
#[verifier::rlimit(40)]
proof fn lemma_encode_function_text(f: FunctionDeclaration, root: RootScope, m: MessageScope)
    requires
        encode_function_header(f, encode_type_name_of(m.name@)),
        f.body.statements@.len() > 0,
        stmts_indented(f.body.statements@) == indent_text("const w = writer || "@ + method_call_text("Writer"@, "create"@, Seq::empty()))
            + fields_encode_text(root, m.id, sort_by_tag(crate::package::fields_view(message_fields_of(m.entries@))))
            + indent_text("return w"@),
    ensures
        function_text(f) == encode_function_text(root, m),
{
    let ps = f.parameters@.map_values(|p: Parameter| parameter_text(p));
    reveal_with_fuel(join, 2);
    reveal_with_fuel(modifiers_text, 2);
    reveal_strlit("message");
    reveal_strlit("writer");
    reveal_strlit("Writer");
    reveal_strlit("?");
    reveal_strlit(": ");
    reveal_strlit(", ");
    reveal_strlit("export ");
    reveal_strlit("function ");
    reveal_strlit("encode");
    reveal_strlit("(");
    reveal_strlit("): ");
    reveal_strlit(" ");
    reveal_strlit("{\n");
    reveal_strlit("export function encode(message: ");
    reveal_strlit(", writer?: Writer): Writer {\n");
    assert(ps[0] == "message"@ + ": "@ + encode_type_name_of(m.name@));
    assert(ps[1] == "writer"@ + "?"@ + ": "@ + "Writer"@);
    assert(ps =~= seq![ps[0], ps[1]]);
    assert(seq![ps[0], ps[1]].drop_last() =~= seq![ps[0]]);
    assert(join(ps, ", "@) == ps[0] + ", "@ + ps[1]);
    assert(seq![Modifier::Export].drop_last() =~= Seq::<Modifier>::empty());
    assert(modifiers_text(seq![Modifier::Export]) == "export "@);
    assert(function_text(f) =~= encode_function_text(root, m));
}

/// Whether `f` is the encoding function of a message whose interface is `input`:
/// `export function encode(message: <input>, writer?: Writer): Writer`.
pub open spec fn encode_function_header(f: FunctionDeclaration, input: Seq<char>) -> bool {
    &&& f.modifiers@ == seq![Modifier::Export]
    &&& f.name.text@ == "encode"@
    &&& f.parameters@.len() == 2
    &&& f.parameters@[0].name.text@ == "message"@ && !f.parameters@[0].optional
    &&& f.parameters@[0].parameter_type@ == TsTypeV::Reference(seq![input])
    &&& f.parameters@[1].name.text@ == "writer"@ && f.parameters@[1].optional
    &&& f.parameters@[1].parameter_type@ == TsTypeV::Reference(seq!["Writer"@])
    &&& f.return_type@ == TsTypeV::Reference(seq!["Writer"@])
}

/// The function imports of an encoding module whose fields, taken by number, are
/// `fs`: one `import { encode as e<id> } from "<path>"` for each field whose encoding
/// function lives in another module, in the order of the fields.
pub open spec fn encoder_imports_are(ss: Seq<Statement>, root: RootScope, parent: usize, fs: Seq<FieldV>) -> bool
    decreases fs.len(),
{
    if fs.len() == 0 {
        ss.len() == 0
    } else {
        match encoder_import_path(root, parent, fs.last().field_type) {
            Some(p) => ss.len() > 0
                && is_function_import(ss.last(), "e"@ + decimal(held_message(fs.last().field_type)->0 as nat), "encode"@, p)
                && encoder_imports_are(ss.drop_last(), root, parent, fs.drop_last()),
            None => encoder_imports_are(ss, root, parent, fs.drop_last()),
        }
    }
}

/// Whether `f` is the encode module of message `m`: the import of `Writer` from the
/// runtime, the import of the message's interface from `./types`, the imports of the
/// encode functions of the messages it holds (see `encoder_imports_are`), then its
/// encode function.
#[verifier::opaque]
pub open spec fn encode_module(root: RootScope, m: MessageScope, f: File) -> bool {
    let imports = f.statements@.drop_last();
    &&& f.name@ == "encode"@
    &&& f.statements@.len() >= 3
    &&& is_plain_import(imports[0], "Writer"@, "protobufjs/minimal"@)
    &&& is_plain_import(imports[1], encode_type_name_of(m.name@), "./types"@)
    &&& encoder_imports_are(imports.skip(2), root, m.id, sort_by_tag(crate::package::fields_view(message_fields_of(m.entries@))))
    &&& f.statements@.last() matches Statement::FunctionDeclaration(f)
        && encode_function_header(*f, encode_type_name_of(m.name@))
        && stmts_ok(f.body.statements@)
        && function_text(*f) == encode_function_text(root, m)
    &&& all_imports(imports)
    &&& has_plain_import(imports, "Writer"@, "protobufjs/minimal"@)
    &&& has_plain_import(imports, encode_type_name_of(m.name@), "./types"@)
    &&& forall|k: int| 0 <= k < message_fields_of(m.entries@).len() ==> has_encoder_import(
        imports,
        root,
        m.id,
        (#[trigger] message_fields_of(m.entries@)[k]).field_type@,
    )
}

/// Adds to the folder of a message its module `encode`, which imports `Writer` and
/// the message's input interface and exports its encoding function: each field
/// present is written in the order of the field numbers, then the writer is returned.
pub fn compile_encode(root: &RootScope, message_folder: &mut Folder, message_scope: &MessageScope) -> (r: Result<(), ProtoError>)
    ensures
        (exists|k: int| 0 <= k < message_fields_of(message_scope.entries@).len()
            && !tag_in_range(#[trigger] message_fields_of(message_scope.entries@)[k].tag)) ==> r is Err,
        (exists|k: int| 0 <= k < message_fields_of(message_scope.entries@).len()
            && !encodable_type(#[trigger] message_fields_of(message_scope.entries@)[k].field_type@)) ==> r is Err,
        (forall|k: int| 0 <= k < message_fields_of(message_scope.entries@).len() ==> {
            let f = #[trigger] message_fields_of(message_scope.entries@)[k];
            tag_in_range(f.tag) && encodable_type(f.field_type@) && !refers_to_message(f.field_type@)
        }) ==> r is Ok,
        r is Ok <==> encode_succeeds(*root, *message_scope),
        r is Ok ==> (final(message_folder).name == old(message_folder).name
            && final(message_folder).entries@.len() == old(message_folder).entries@.len() + 1
            && final(message_folder).entries@.subrange(0, old(message_folder).entries@.len() as int) == old(message_folder).entries@),
        r is Ok ==> (final(message_folder).entries@.last() matches FolderEntry::File(file) && encode_module(*root, *message_scope, *file)),
{
    let mut file = File::new("encode".to_string());
    let mut writer_import: Vec<ImportSpecifier> = Vec::new();
    writer_import.push(ImportSpecifier::new(Identifier::new("Writer")));
    let runtime_path = StringLiteral::new(PROTOBUF_MODULE.to_string());
    assert(runtime_path.text@ == "protobufjs/minimal"@);
    let first_import = Statement::ImportDeclaration(Box::new(ImportDeclaration::import(writer_import, runtime_path)));
    assert(is_plain_import(first_import, "Writer"@, "protobufjs/minimal"@));
    file.push_statement(first_import);
    let input_name = message_name_to_encode_type_name(message_scope.name.as_str());
    let mut type_import: Vec<ImportSpecifier> = Vec::new();
    type_import.push(ImportSpecifier::new(Identifier::new(input_name.as_str())));
    proof {
        reveal_strlit("./types");
        reveal_strlit("protobufjs/minimal");
        assert(file.statements@.len() == 1);
        assert(file.statements@.drop_first().len() == 0);
        reveal_with_fuel(import_slot, 2);
        assert("protobufjs/minimal"@ != "./types"@);
        assert(file.statements@[0] matches Statement::ImportDeclaration(d) && d.string_literal.text@ == "protobufjs/minimal"@);
        assert(import_slot(file.statements@, "./types"@) == 1);
    }
    let types_import = ImportDeclaration::import(type_import, StringLiteral::new("./types".to_string()));
    let ghost ti = types_import;
    assert(is_plain_import(Statement::ImportDeclaration(Box::new(ti)), input_name@, "./types"@));
    ensure_import(&mut file, types_import)?;
    proof {
        assert(file.statements@ == seq![first_import].insert(1, Statement::ImportDeclaration(Box::new(ti))));
        seq![first_import].insert_ensures(1, Statement::ImportDeclaration(Box::new(ti)));
        assert(file.statements@[0] == first_import);
        assert(has_plain_import(file.statements@, "Writer"@, "protobufjs/minimal"@));
        assert(has_plain_import(file.statements@, encode_type_name_of(message_scope.name@), "./types"@));
        assert(all_imports(file.statements@));
        assert forall|q: Seq<char>| #[trigger] imports_path(file.statements@, q) <==> (q == "protobufjs/minimal"@ || q == "./types"@) by {
            if imports_path(file.statements@, q) {
                let j = choose|j: int| 0 <= j < file.statements@.len() && import_path_of(#[trigger] file.statements@[j]) == q;
                assert(j == 0 || j == 1);
            }
            if q == "protobufjs/minimal"@ {
                assert(import_path_of(file.statements@[0]) == q);
            }
            if q == "./types"@ {
                assert(import_path_of(file.statements@[1]) == q);
            }
        }
    }

    let mut encode = FunctionDeclaration::new_exported(ENCODE_FUNCTION_NAME);
    encode.add_param(Parameter::new("message", Type::from_id(input_name.as_str())));
    encode.add_param(Parameter::new_optional("writer", Type::from_id("Writer")));
    encode.set_return_type(Type::from_id("Writer"));
    let first = writer_declaration();
    encode.push_statement(first);

    let fields = message_scope.get_fields();
    let ghost fs = message_fields_of(message_scope.entries@);
    assert(crate::package::fields_view(fields@).len() == crate::package::fields_view(fs).len());
    let mut i: usize = 0;
    while i < fields.len()
        invariant
            i <= fields@.len(),
            fs == message_fields_of(message_scope.entries@),
            fields@.len() == fs.len(),
            crate::package::fields_view(fields@) == crate::package::fields_view(fs),
            forall|q: int| 0 <= q < i ==> tag_in_range(#[trigger] fs[q].tag),
        decreases fields@.len() - i,
    {
        proof {
            assert(crate::package::fields_view(fields@)[i as int] == fields@[i as int]@);
            assert(crate::package::fields_view(fs)[i as int] == fs[i as int]@);
        }
        if !(fields[i].tag >= -0x0fff_ffff_ffff_ffff && fields[i].tag <= 0x0fff_ffff_ffff_ffff) {
            assert(!tag_in_range(fs[i as int].tag));
            return Err(ProtoError::new("A field number is out of range"));
        }
        i = i + 1;
    }
    let ghost sorted = sort_by_tag(crate::package::fields_view(fs));
    proof {
        assert forall|w: int| 0 <= w < crate::package::fields_view(fs).len() implies tag_ok(#[trigger] crate::package::fields_view(fs)[w].tag) by {
            assert(crate::package::fields_view(fs)[w] == fs[w]@);
            assert(tag_in_range(fs[w].tag));
        }
        lemma_sort_tags_ok(crate::package::fields_view(fs));
        lemma_sort_keeps_fields(crate::package::fields_view(fs));
    }
    let ordered = sort_fields_by_tag(fields);
    let ghost head = encode.body.statements@;
    proof {
        lemma_one_stmt(first);
        assert(head =~= seq![first]);
        assert(sorted.take(0) =~= Seq::<FieldV>::empty());
    }
    let ghost paths = encoder_paths(*root, message_scope.id, sorted);
    proof {
        assert(file.statements@.skip(2).len() == 0);
        assert(paths.take(0) =~= Seq::<Option<Seq<char>>>::empty());
        assert forall|q: Seq<char>| #[trigger] imports_path(file.statements@, q) <==> (q == "protobufjs/minimal"@ || q == "./types"@
            || paths.take(0).contains(Some(q))) by {}
    }
    let mut k: usize = 0;
    while k < ordered.len()
        invariant
            k <= ordered@.len(),
            fs == message_fields_of(message_scope.entries@),
            forall|x: FieldV| sorted.contains(x) <==> crate::package::fields_view(fs).contains(x),
            crate::package::fields_view(ordered@) == sorted,
            sorted == sort_by_tag(crate::package::fields_view(fs)),
            forall|q: int| 0 <= q < ordered@.len() ==> tag_ok(#[trigger] sorted[q].tag),
            forall|q: int| 0 <= q < k ==> encodable_type(#[trigger] sorted[q].field_type),
            file.name@ == "encode"@,
            file.statements@.len() >= 1,
            encode_function_header(encode, encode_type_name_of(message_scope.name@)),
            encode.body.statements@.len() == k + 1,
            stmts_ok(encode.body.statements@),
            stmts_indented(encode.body.statements@) == indent_text("const w = writer || "@ + method_call_text("Writer"@, "create"@, Seq::empty()))
                + fields_encode_text(*root, message_scope.id, sorted.take(k as int)),
            all_imports(file.statements@),
            has_plain_import(file.statements@, "Writer"@, "protobufjs/minimal"@),
            has_plain_import(file.statements@, encode_type_name_of(message_scope.name@), "./types"@),
            forall|q: int| 0 <= q < k ==> has_encoder_import(file.statements@, *root, message_scope.id, #[trigger] sorted[q].field_type),
            paths == encoder_paths(*root, message_scope.id, sorted),
            fresh_paths(paths.take(k as int)),
            imports_exactly(file.statements@, paths.take(k as int)),
            forall|q: int| 0 <= q < k ==> encoder_found(*root, message_scope.id, #[trigger] sorted[q].field_type),
            forall|q: int| 0 <= q < fs.len() ==> tag_in_range(#[trigger] fs[q].tag),
            is_plain_import(file.statements@[0], "Writer"@, "protobufjs/minimal"@),
            is_plain_import(file.statements@[1], encode_type_name_of(message_scope.name@), "./types"@),
            file.statements@.len() >= 2,
            encoder_imports_are(file.statements@.skip(2), *root, message_scope.id, sorted.take(k as int)),
        decreases ordered@.len() - k,
    {
        let ghost file_before = file.statements@;
        proof {
            assert(crate::package::fields_view(ordered@)[k as int] == ordered@[k as int]@);
            assert(tag_ok(sorted[k as int].tag));
        }
        let ghost before = encode.body.statements@;
        proof {
            assert(sorted.contains(sorted[k as int]));
            assert(crate::package::fields_view(fs).contains(sorted[k as int]));
            let j = choose|j: int| 0 <= j < crate::package::fields_view(fs).len()
                && crate::package::fields_view(fs)[j] == sorted[k as int];
            assert(crate::package::fields_view(fs)[j] == fs[j]@);
            assert(fs[j]@ == ordered@[k as int]@);
            assert(fs[j].field_type@ == ordered@[k as int].field_type@);
        }
        let written = encode_field(root, message_scope.id, &mut file, &ordered[k]);
        proof {
            assert(paths[k as int] == encoder_import_path(*root, message_scope.id, sorted[k as int].field_type));
            assert(sorted[k as int] == ordered@[k as int]@);
            lemma_fresh_step(file_before, file.statements@, paths, k as int);
        }
        let statement = match written {
            Ok(s) => s,
            Err(e) => {
                proof {
                    assert(sorted.contains(sorted[k as int]));
                    assert(crate::package::fields_view(fs).contains(sorted[k as int]));
                    let j = choose|j: int| 0 <= j < crate::package::fields_view(fs).len()
                        && crate::package::fields_view(fs)[j] == sorted[k as int];
                    assert(crate::package::fields_view(fs)[j] == fs[j]@);
                    if encodable_type(fs[j].field_type@) && encoder_found(*root, message_scope.id, fs[j].field_type@) {
                        assert(!fresh_at(paths, k as int));
                    }
                }
                return Err(e);
            },
        };
        encode.push_statement(statement);
        proof {
            let t = sorted.take(k + 1);
            assert(t.drop_last() =~= sorted.take(k as int));
            assert(t.last() == ordered@[k as int]@);
            match encoder_import_path(*root, message_scope.id, t.last().field_type) {
                Some(p) => {
                    assert(file.statements@.skip(2).drop_last() =~= file_before.skip(2));
                    assert(file.statements@.skip(2).last() == file.statements@.last());
                    assert(file.statements@[0] == file_before[0]);
                    assert(file.statements@[1] == file_before[1]);
                },
                None => {},
            }
            lemma_one_import_more(file_before, file.statements@);
            assert forall|q: int| 0 <= q < k + 1 implies has_encoder_import(file.statements@, *root, message_scope.id, #[trigger] sorted[q].field_type) by {
                if q < k {
                    assert(has_encoder_import(file_before, *root, message_scope.id, sorted[q].field_type));
                } else {
                    assert(sorted[q] == ordered@[k as int]@);
                }
            }
            assert(encode.body.statements@.subrange(0, before.len() as int) =~= before);
            assert(sorted.take(k + 1).drop_last() =~= sorted.take(k as int));
            assert(sorted.take(k + 1).last() == ordered@[k as int]@);
        }
        k = k + 1;
    }
    proof {
        assert forall|j: int| 0 <= j < fs.len() implies encodable_type(#[trigger] fs[j].field_type@)
            && encoder_found(*root, message_scope.id, fs[j].field_type@) by {
            assert(crate::package::fields_view(fs)[j] == fs[j]@);
            assert(crate::package::fields_view(fs).contains(fs[j]@));
            assert(sorted.contains(fs[j]@));
            let q = choose|q: int| 0 <= q < sorted.len() && sorted[q] == fs[j]@;
            assert(encodable_type(sorted[q].field_type));
            assert(encoder_found(*root, message_scope.id, sorted[q].field_type));
        }
        assert(paths.take(k as int) =~= paths);
    }
    let ghost before = encode.body.statements@;
    let last = Expression::id("w").into_return_statement();
    proof {
        reveal_strlit("return w");
        reveal_strlit("return ");
        reveal_strlit("w");
        assert(stmt_text(last) =~= "return w"@);
        assert(stmt_ok(last));
    }
    encode.push_statement(last);
    proof {
        let all = encode.body.statements@;
        assert(all.subrange(0, all.len() - 1) =~= before);
        assert(all[all.len() - 1] == last);
        assert(stmts_indented(all) == stmts_indented(before) + indent_text(stmt_text(last)));
        assert(stmts_ok(all));
        assert(k == ordered@.len());
        assert(sorted.len() == ordered@.len());
        assert(sorted.take(k as int) =~= sorted);
        assert(stmts_indented(all) == indent_text("const w = writer || "@ + method_call_text("Writer"@, "create"@, Seq::empty()))
            + fields_encode_text(*root, message_scope.id, sorted) + indent_text("return w"@));
        lemma_encode_function_text(encode, *root, *message_scope);
    }
    let ghost imports = file.statements@;
    proof {
        assert forall|j: int| 0 <= j < fs.len() implies has_encoder_import(imports, *root, message_scope.id, #[trigger] fs[j].field_type@) by {
            assert(crate::package::fields_view(fs)[j] == fs[j]@);
            assert(crate::package::fields_view(fs).contains(fs[j]@));
            assert(sorted.contains(fs[j]@));
            let q = choose|q: int| 0 <= q < sorted.len() && sorted[q] == fs[j]@;
            assert(has_encoder_import(imports, *root, message_scope.id, sorted[q].field_type));
        }
    }
    file.push_statement(Statement::FunctionDeclaration(Box::new(encode)));
    assert(file.statements@.drop_last() =~= imports);
    assert(sorted.take(k as int) =~= sorted);
    message_folder.push_file(file);
    assert(message_folder.entries@.subrange(0, old(message_folder).entries@.len() as int) =~= old(message_folder).entries@);
    proof {
        reveal(encode_module);
    }
    Ok(())
}

/// Whether a field number is in the range `tag_in_range` admits.
pub open spec fn tag_ok(t: int) -> bool {
    -0x0fff_ffff_ffff_ffff <= t <= 0x0fff_ffff_ffff_ffff
}

proof fn lemma_insert_tags_ok(fs: Seq<FieldV>, f: FieldV)
    requires
        forall|w: int| 0 <= w < fs.len() ==> tag_ok(#[trigger] fs[w].tag),
        tag_ok(f.tag),
    ensures
        forall|k: int| 0 <= k < insert_by_tag(fs, f).len() ==> tag_ok(#[trigger] insert_by_tag(fs, f)[k].tag),
    decreases fs.len(),
{
    if fs.len() > 0 && fs[0].tag <= f.tag {
        assert forall|w: int| 0 <= w < fs.drop_first().len() implies tag_ok(#[trigger] fs.drop_first()[w].tag) by {
            assert(fs.drop_first()[w] == fs[w + 1]);
        }
        lemma_insert_tags_ok(fs.drop_first(), f);
        let r = insert_by_tag(fs, f);
        let rr = insert_by_tag(fs.drop_first(), f);
        assert forall|k: int| 0 <= k < r.len() implies tag_ok(#[trigger] r[k].tag) by {
            if k > 0 {
                assert(r[k] == rr[k - 1]);
            } else {
                assert(r[0] == fs[0]);
            }
        }
    } else if fs.len() > 0 {
        let r = insert_by_tag(fs, f);
        assert forall|k: int| 0 <= k < r.len() implies tag_ok(#[trigger] r[k].tag) by {
            if k > 0 {
                assert(r[k] == fs[k - 1]);
            }
        }
    }
}

/// Sorting keeps every field number in range.
proof fn lemma_sort_tags_ok(fs: Seq<FieldV>)
    requires
        forall|w: int| 0 <= w < fs.len() ==> tag_ok(#[trigger] fs[w].tag),
    ensures
        forall|k: int| 0 <= k < sort_by_tag(fs).len() ==> tag_ok(#[trigger] sort_by_tag(fs)[k].tag),
    decreases fs.len(),
{
    if fs.len() > 0 {
        let p = fs.drop_last();
        assert forall|w: int| 0 <= w < p.len() implies tag_ok(#[trigger] p[w].tag) by {
            assert(p[w] == fs[w]);
        }
        lemma_sort_tags_ok(p);
        assert(tag_ok(fs[fs.len() - 1].tag));
        lemma_insert_tags_ok(sort_by_tag(p), fs.last());
    }
}

} // verus!
