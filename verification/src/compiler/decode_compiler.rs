//! The decoding function of a message.
use vstd::prelude::*;
use crate::compiler::ast::{
    BinaryOperator, Block, CaseClause, DefaultClause, Expression, File, Folder, FolderEntry, FunctionDeclaration,
    Identifier, IfStatement, ImportDeclaration, ImportSpecifier, Modifier, ObjectLiteralMember, Parameter, Statement,
    StringLiteral, SwitchStatement, TsTypeV, Type, UnionType, VariableDeclarationList, WhileStatement, ts_types_view,
    };
use crate::compiler::constants::{DECODE_FUNCTION_NAME, PROTOBUF_MODULE, DefaultValue, default_expression, default_of, is_default};
use crate::compiler::names::js_string;
use crate::compiler::imports::{fresh_at, fresh_paths, imports_exactly, import_path_of, lemma_fresh_step, imports_path, lemma_function_import_outcome, all_imports, has_plain_import, is_plain_import, lemma_one_import_more, has_function_import, same_or_one_import_more, lemma_import_slot, lemma_slot_after_all_imports, is_function_import, check_import_path, ensure_import, get_relative_import_string, import_slot, imports_from};
use crate::compiler::ts_path::{TsPathComponent};
use crate::compiler::types_compiler::{declaration_ts_path};
use crate::error::ProtoError;
use crate::package::{Field, Type as FieldType, TypeV, attributes_view, fields_view, json_name_of};
use crate::proto_scope::{MessageScope, RootScope, message_fields_of};
use crate::compiler::encode_compiler::{
    held_message, function_ref, refers_to_message, lemma_const_text, lemma_method_call, lemma_no_exprs, lemma_one_expr, lemma_one_stmt, lemma_three_stmts,
    lemma_two_exprs, lemma_two_stmts, message_value_text, method_call_text,
};
use crate::compiler::ast::{is_bare_literal, wraps_for_property};
use crate::compiler::render::{
    type_text, union_member_texts, cases_ok, cases_text, function_text, modifiers_text, parameter_text, lemma_members, members_ok, members_texts, block_text, expr_ok, expr_text, exprs_ok, indent_text, property_suffix, stmt_ok, stmt_text, stmts_indented,
    stmts_ok,
};
use crate::package::{FieldV, resolved_packed_wire_type, scalar_name};
use crate::text::{decimal, int_text, join, push_decimal};

verus! {

/// How an initial value of the given kind is written.
pub open spec fn default_text(d: DefaultValue) -> Seq<char> {
    match d {
        DefaultValue::Null => "null"@,
        DefaultValue::EmptyArray => "[]"@,
        DefaultValue::EmptyObject => "{}"@,
        DefaultValue::False => "false"@,
        DefaultValue::NewBytes => "new Uint8Array()"@,
        DefaultValue::Zero => int_text(0),
        DefaultValue::EmptyString => js_string(Seq::empty()),
    }
}

/// `name: value` for each field, by its JSON name and its initial value.
pub open spec fn default_members_text(fs: Seq<FieldV>) -> Seq<Seq<char>> {
    fs.map_values(|f: FieldV| json_name_of(f.attributes, f.name) + ": "@ + default_text(default_of(f.field_type)))
}

/// The object a decoded message starts as, as written.
pub open spec fn default_object_text(fs: Seq<FieldV>) -> Seq<char> {
    if fs.len() == 0 {
        "{}"@
    } else {
        "{ "@ + join(default_members_text(fs), ", "@) + " }"@
    }
}

/// An initial value is written as `default_text` says.
proof fn lemma_default_text(e: Expression, d: DefaultValue)
    requires
        is_default(e, d),
    ensures
        expr_text(e) == default_text(d),
        expr_ok(e),
{
    reveal_strlit("[]");
    reveal_strlit("{}");
    reveal_strlit("[");
    reveal_strlit("]");
    reveal_strlit("new Uint8Array()");
    reveal_strlit("new ");
    reveal_strlit("Uint8Array");
    reveal_strlit("(");
    reveal_strlit(")");
    lemma_no_exprs();
    assert(join(Seq::<Seq<char>>::empty(), ", "@) =~= Seq::<char>::empty());
    match d {
        DefaultValue::EmptyArray => {
            let v = e->ArrayLiteralExpression_0;
            assert(v@ =~= Seq::<Expression>::empty());
            assert(expr_text(e) =~= "[]"@);
            assert(exprs_ok(v@));
        },
        DefaultValue::NewBytes => {
            let n = e->NewExpression_0;
            assert(n.arguments@ =~= Seq::<Expression>::empty());
            assert(expr_text(*n.expression) == "Uint8Array"@);
            assert(expr_text(e) =~= "new Uint8Array()"@);
            assert(exprs_ok(n.arguments@));
            assert(expr_ok(*n.expression));
        },
        DefaultValue::EmptyString => {
            let l = e->StringLiteral_0;
            assert(l.text@ =~= Seq::<char>::empty());
        },
        DefaultValue::EmptyObject => {
            let v = e->ObjectLiteralExpression_0;
            assert(members_ok(v@));
        },
        _ => {},
    }
}

/// The object a decoded message starts as: each field under its JSON name with its
/// initial value.
pub fn get_default_message_value(message: &MessageScope) -> (r: Expression)
    ensures
        r matches Expression::ObjectLiteralExpression(ms) && ms@.len() == message_fields_of(message.entries@).len()
            && forall|k: int| 0 <= k < ms@.len() ==> (#[trigger] ms@[k] matches ObjectLiteralMember::PropertyAssignment(id, v)
            && id.text@ == json_name_of(attributes_view(message_fields_of(message.entries@)[k].attributes@), message_fields_of(message.entries@)[k].name@)
            && is_default(v, default_of(message_fields_of(message.entries@)[k].field_type@))),
        expr_text(r) == default_object_text(fields_view(message_fields_of(message.entries@))),
        expr_ok(r),
{
    let fields = message.get_fields();
    let ghost fs = message_fields_of(message.entries@);
    proof {
        assert(fields_view(fields@).len() == fields_view(fs).len());
    }
    let mut members: Vec<ObjectLiteralMember> = Vec::new();
    let mut k: usize = 0;
    while k < fields.len()
        invariant
            k <= fields@.len(),
            fields@.len() == fs.len(),
            fields_view(fields@) == fields_view(fs),
            members@.len() == k,
            forall|q: int| 0 <= q < k ==> (#[trigger] members@[q] matches ObjectLiteralMember::PropertyAssignment(id, v)
                && id.text@ == json_name_of(attributes_view(fs[q].attributes@), fs[q].name@)
                && is_default(v, default_of(fs[q].field_type@))),
        decreases fields@.len() - k,
    {
        let f = &fields[k];
        proof {
            assert(fields_view(fields@)[k as int] == fields_view(fs)[k as int]);
            assert(f@ == fs[k as int]@);
        }
        let name = f.json_name();
        let value = default_expression(&f.field_type);
        members.push(ObjectLiteralMember::PropertyAssignment(Identifier::new(name.as_str()), value));
        k = k + 1;
    }
    let ghost ms = members@;
    let r = Expression::ObjectLiteralExpression(members);
    proof {
        let fv = fields_view(fs);
        lemma_members(ms);
        assert forall|q: int| 0 <= q < ms.len() implies #[trigger] members_texts(ms)[q] == default_members_text(fv)[q]
            && expr_ok(ms[q]->PropertyAssignment_1) by {
            let v = ms[q]->PropertyAssignment_1;
            lemma_default_text(v, default_of(fs[q].field_type@));
            assert(fv[q] == fs[q]@);
        }
        assert(members_texts(ms) =~= default_members_text(fv));
        assert forall|q: int| 0 <= q < ms.len() implies (match #[trigger] ms[q] {
            ObjectLiteralMember::PropertyAssignment(_, v) => expr_ok(v),
        }) by {
            lemma_default_text(ms[q]->PropertyAssignment_1, default_of(fs[q].field_type@));
        }
        assert(members_ok(ms));
        reveal_strlit("{}");
    }
    r
}

/// The name under which the decoding function of message `m_id` is imported: `d<m_id>`.
pub open spec fn decode_alias(m_id: usize) -> Seq<char> {
    "d"@ + decimal(m_id as nat)
}

/// The expression that names the decoding function of message `m_id` in the decoding
/// module of message `message_id`, importing it there where it lives elsewhere.
pub fn import_decode_func(root: &RootScope, message_id: usize, file: &mut File, m_id: usize) -> (r: Result<Expression, ProtoError>)
    ensures
        final(file).name == old(file).name,
        final(file).statements@.len() >= old(file).statements@.len(),
        same_or_one_import_more(old(file).statements@, final(file).statements@),
        decoder_ref(*root, message_id, m_id) is None ==> r is Err,
        decoder_ref(*root, message_id, m_id) == Some(None::<Seq<char>>) ==> (r is Ok
            && final(file).statements@ == old(file).statements@),
        r matches Ok(e) ==> (e matches Expression::Identifier(i) && i.text@ == decoder_name(*root, message_id, m_id)),
        decoder_ref(*root, message_id, m_id) matches Some(Some(path)) ==> if imports_from(old(file).statements@, import_slot(old(file).statements@, path), path) {
            r is Err && final(file).statements@ == old(file).statements@
        } else {
            r is Ok && final(file).statements@ == old(file).statements@.insert(import_slot(old(file).statements@, path), final(file).statements@[import_slot(old(file).statements@, path)])
                && is_function_import(final(file).statements@[import_slot(old(file).statements@, path)], decode_alias(m_id), "decode"@, path)
        },
{
    let mut decode_path = declaration_ts_path(root, m_id)?;
    decode_path.push(TsPathComponent::File("decode".to_string()));
    decode_path.push(TsPathComponent::Function("decode".to_string()));
    let mut current = declaration_ts_path(root, message_id)?;
    current.push(TsPathComponent::File("decode".to_string()));
    if !check_import_path(current.components().as_slice(), decode_path.components().as_slice()) {
        return Err(ProtoError::new("Cannot import a decoding function from its own path"));
    }
    match get_relative_import_string(current.components().as_slice(), decode_path.components().as_slice()) {
        Some(import_string) => {
            let mut alias = String::new();
            alias.append("d");
            push_decimal(&mut alias, m_id as u64);
            let mut specifiers: Vec<ImportSpecifier> = Vec::new();
            specifiers.push(ImportSpecifier::new_full(Identifier::new(alias.as_str()), Some(Identifier::new(DECODE_FUNCTION_NAME))));
            let ghost sv = specifiers@;
            let new_import = ImportDeclaration::import(specifiers, StringLiteral::new(import_string));
            let ghost ni = new_import;
            proof {
                reveal_strlit("d");
                assert(alias@ =~= decode_alias(m_id));
                assert(is_function_import(Statement::ImportDeclaration(Box::new(ni)), decode_alias(m_id), DECODE_FUNCTION_NAME@, ni.string_literal.text@));
                lemma_import_slot(file.statements@, ni.string_literal.text@);
            }
            ensure_import(file, new_import)?;
            Ok(Expression::Identifier(Identifier::new(alias.as_str())))
        },
        None => Ok(Expression::Identifier(Identifier::new(DECODE_FUNCTION_NAME))),
    }
}

/// Where the decoding module of message `parent` finds the decoding function of
/// message `id` (see `function_ref`).
pub open spec fn decoder_ref(root: RootScope, parent: usize, id: usize) -> Option<Option<Seq<char>>> {
    function_ref(root, parent, id, "decode"@)
}

/// The name under which the decoding module of message `parent` calls the decoding
/// function of message `id`: `d<id>` where it is imported, else `decode`.
pub open spec fn decoder_name(root: RootScope, parent: usize, id: usize) -> Seq<char> {
    match decoder_ref(root, parent, id) {
        Some(Some(_)) => decode_alias(id),
        _ => "decode"@,
    }
}

/// Whether the decoding function that reading a field of type `t` calls is found.
pub open spec fn decoder_found(root: RootScope, parent: usize, t: TypeV) -> bool {
    held_message(t) matches Some(m) ==> decoder_ref(root, parent, m) is Some
}

/// The path from which the decoding module of message `parent` imports the decoding
/// function that reading a field of type `t` calls, where it lives in another module.
pub open spec fn decoder_import_path(root: RootScope, parent: usize, t: TypeV) -> Option<Seq<char>> {
    match held_message(t) {
        Some(m) => match decoder_ref(root, parent, m) {
            Some(Some(p)) => Some(p),
            _ => None,
        },
        None => None,
    }
}

/// For each field, the path its decoding function is imported from, if any.
pub open spec fn decoder_paths(root: RootScope, parent: usize, fs: Seq<FieldV>) -> Seq<Option<Seq<char>>> {
    fs.map_values(|f: FieldV| decoder_import_path(root, parent, f.field_type))
}

/// Whether the decoding module of a message can be generated: each field of a type
/// that can be read whose decoding function, where it calls one, is found, and, taking
/// the fields in order, each such function imported from a path of its own.
pub open spec fn decode_succeeds(root: RootScope, m: MessageScope) -> bool {
    let fs = message_fields_of(m.entries@);
    &&& forall|k: int| 0 <= k < fs.len() ==> decodable(#[trigger] fs[k].field_type@)
        && decoder_found(root, m.id, fs[k].field_type@)
    &&& fresh_paths(decoder_paths(root, m.id, fields_view(fs)))
}

/// Whether the decoding module of message `parent` holds the import that reading a
/// field of type `t` needs: the decoding function of the message it holds, imported
/// under `d<id>` where it lives in another module.
pub open spec fn has_decoder_import(ss: Seq<Statement>, root: RootScope, parent: usize, t: TypeV) -> bool {
    held_message(t) matches Some(m) ==> (decoder_ref(root, parent, m) matches Some(Some(path))
        ==> has_function_import(ss, decode_alias(m), "decode"@, path))
}

/// `r.<method>()`.
pub open spec fn reader_call_text(method: Seq<char>) -> Seq<char> {
    method_call_text("r"@, method, Seq::empty())
}

/// `<f>(r, r.uint32())`: a nested message read with its length before it.
pub open spec fn decode_call_text(f: Seq<char>) -> Seq<char> {
    f + "("@ + "r"@ + ", "@ + reader_call_text("uint32"@) + ")"@
}

/// `message.<name> = <value>`.
pub open spec fn assign_text(name: Seq<char>, value: Seq<char>) -> Seq<char> {
    message_value_text(name) + " = "@ + value
}

/// `message.<name>.push(<value>)`.
pub open spec fn push_text(name: Seq<char>, value: Seq<char>) -> Seq<char> {
    method_call_text(message_value_text(name), "push"@, seq![value])
}

/// `if (!(message.<name> && message.<name>.length)) message.<name> = []`.
pub open spec fn reset_text(name: Seq<char>) -> Seq<char> {
    "if (!("@ + message_value_text(name) + " && "@ + message_value_text(name) + property_suffix("length"@) + ")) "@
        + message_value_text(name) + " = []"@
}

/// Elements read packed (behind one key and their length) or one by one.
pub open spec fn packed_read_text(name: Seq<char>, method: Seq<char>) -> Seq<char> {
    "if ((tag & "@ + int_text(7) + ") === "@ + int_text(2) + ") {\n"@
        + indent_text("const arr_end = "@ + reader_call_text("uint32"@) + " + r"@ + property_suffix("pos"@))
        + indent_text("while (r"@ + property_suffix("pos"@) + " < arr_end) {\n"@ + indent_text(push_text(name, reader_call_text(method))) + "}"@)
        + "} else "@ + push_text(name, reader_call_text(method))
}

/// The statements of the case that reads a field (named by its JSON name), each
/// indented: by its type, the value assigned or, for a repeated field, the array
/// made where there is none and the elements pushed; then `break`.
pub open spec fn field_decode_text(root: RootScope, parent: usize, f: FieldV) -> Seq<char> {
    let name = json_name_of(f.attributes, f.name);
    (match f.field_type {
        TypeV::Message(m) => indent_text(assign_text(name, decode_call_text(decoder_name(root, parent, m as usize)))),
        TypeV::Repeated(e) => {
            let et = if *e is Enum { TypeV::Int32 } else { *e };
            indent_text(reset_text(name)) + if resolved_packed_wire_type(et) is Some {
                indent_text(packed_read_text(name, scalar_name(et)))
            } else {
                match et {
                    TypeV::Message(m) => indent_text(push_text(name, decode_call_text(decoder_name(root, parent, m as usize)))),
                    _ => indent_text(push_text(name, reader_call_text(scalar_name(et)))),
                }
            }
        },
        TypeV::Enum(_) => indent_text(assign_text(name, reader_call_text("int32"@))),
        t => indent_text(assign_text(name, reader_call_text(scalar_name(t)))),
    }) + indent_text("break"@)
}

/// `r.<method>()`.
fn reader_call(method: &str) -> (r: Expression)
    ensures
        expr_text(r) == reader_call_text(method@),
        expr_ok(r),
        r is CallExpression,
{
    let reader = Expression::id("r");
    let ghost rv = reader;
    let r = reader.into_method_call(method, Vec::new());
    proof {
        lemma_no_exprs();
        lemma_method_call(r, rv, method@, Seq::empty());
    }
    r
}

/// `message.<name>`.
fn message_field(name: &str) -> (r: Expression)
    ensures
        expr_text(r) == message_value_text(name@),
        expr_ok(r),
        r is PropertyAccessExpression,
{
    let m = Expression::id("message");
    let r = m.into_prop(name);
    assert(expr_text(r) == expr_text(m) + property_suffix(name@));
    assert(expr_ok(m) && !is_bare_literal(m));
    r
}

/// `<decode>(r, r.uint32())`.
fn decode_call(decode: Expression) -> (r: Expression)
    requires
        decode is Identifier,
    ensures
        expr_text(r) == decode_call_text(expr_text(decode)),
        expr_ok(r),
{
    let ghost dt = expr_text(decode);
    let reader = Expression::id("r");
    let length = reader_call("uint32");
    let mut args: Vec<Expression> = Vec::new();
    args.push(reader);
    args.push(length);
    proof {
        lemma_two_exprs(args@[0], args@[1]);
        assert(args@ =~= seq![args@[0], args@[1]]);
        reveal_with_fuel(join, 2);
        assert(seq!["r"@, reader_call_text("uint32"@)].drop_last() =~= seq!["r"@]);
    }
    assert(expr_ok(decode));
    let r = decode.into_call(args);
    assert(expr_text(r) =~= decode_call_text(dt));
    assert(expr_ok(r));
    r
}

/// `message.<name>.push(<value>)`.
fn push_element(name: &str, value: Expression) -> (r: Expression)
    ensures
        expr_text(r) == push_text(name@, expr_text(value)),
        expr_ok(r) == expr_ok(value),
{
    let ghost v = value;
    let mut args: Vec<Expression> = Vec::new();
    args.push(value);
    let field = message_field(name);
    let ghost fv = field;
    let r = field.into_method_call("push", args);
    proof {
        assert(args@ =~= seq![v]);
        lemma_one_expr(v);
        lemma_method_call(r, fv, "push"@, seq![v]);
    }
    r
}

/// `message.<name> = <value>`.
fn assign_field(name: &str, value: Expression) -> (r: Statement)
    ensures
        stmt_text(r) == assign_text(name@, expr_text(value)),
        stmt_ok(r) == expr_ok(value),
{
    let ghost vt = expr_text(value);
    let r = Statement::Expression(BinaryOperator::Assign.apply(message_field(name), value));
    proof {
        reveal_strlit(" = ");
        reveal_strlit(" ");
        reveal_strlit("=");
        assert(stmt_text(r) =~= assign_text(name@, vt));
    }
    r
}

/// `!(message.<name> && message.<name>.length)`.
fn missing_array(name: &str) -> (r: Expression)
    ensures
        expr_text(r) == "!("@ + message_value_text(name@) + " && "@ + message_value_text(name@) + property_suffix("length"@) + ")"@,
        expr_ok(r),
{
    let field = message_field(name);
    let ghost fv = field;
    let length = field.into_prop("length");
    assert(expr_text(length) == message_value_text(name@) + property_suffix("length"@));
    assert(expr_ok(length));
    let not_empty = message_field(name).and(length);
    let ghost ne = not_empty;
    proof {
        reveal_strlit(" && ");
        reveal_strlit(" ");
        reveal_strlit("&&");
        assert(expr_text(ne) =~= message_value_text(name@) + " && "@ + message_value_text(name@) + property_suffix("length"@));
    }
    let paren = not_empty.into_parentheses();
    let r = paren.not();
    proof {
        reveal_strlit("!(");
        reveal_strlit("!");
        reveal_strlit("(");
        assert(expr_text(paren) == "("@ + expr_text(ne) + ")"@);
        assert(expr_text(r) =~= "!("@ + message_value_text(name@) + " && "@ + message_value_text(name@) + property_suffix("length"@) + ")"@);
        assert(expr_ok(ne));
        assert(expr_ok(paren));
    }
    r
}

/// `if (!(message.<name> && message.<name>.length)) message.<name> = []`.
fn reset_field(name: &str) -> (r: Statement)
    ensures
        stmt_text(r) == reset_text(name@),
        stmt_ok(r),
{
    let condition = missing_array(name);
    let ghost ct = expr_text(condition);
    let empty = Expression::ArrayLiteralExpression(Vec::new());
    proof {
        lemma_no_exprs();
        assert(expr_text(empty) == "["@ + join(Seq::<Seq<char>>::empty(), ", "@) + "]"@);
    }
    let assign = assign_field(name, empty);
    let ghost at = stmt_text(assign);
    let r = Statement::IfStatement(IfStatement { expression: condition, then_statement: Box::new(assign), else_statement: None });
    proof {
        reveal_strlit("if (!(");
        reveal_strlit(")) ");
        reveal_strlit(" = []");
        reveal_strlit(" = ");
        reveal_strlit("[");
        reveal_strlit("]");
        reveal_strlit("if (");
        reveal_strlit(") ");
        reveal_strlit("!(");
        reveal_strlit(")");
        reveal_strlit("[]");
        assert(join(Seq::<Seq<char>>::empty(), ", "@) =~= Seq::<char>::empty());
        assert("["@ + join(Seq::<Seq<char>>::empty(), ", "@) + "]"@ =~= "[]"@);
        assert(at == assign_text(name@, "[]"@));
        assert(stmt_text(r) == "if ("@ + ct + ") "@ + at);
        assert(stmt_text(r) =~= reset_text(name@));
    }
    r
}

/// `r.pos`.
fn reader_pos() -> (r: Expression)
    ensures
        expr_text(r) == "r"@ + property_suffix("pos"@),
        expr_ok(r),
        r is PropertyAccessExpression,
{
    let reader = Expression::id("r");
    let r = reader.into_prop("pos");
    assert(expr_text(r) == expr_text(reader) + property_suffix("pos"@));
    assert(expr_ok(reader) && !is_bare_literal(reader));
    r
}

/// `const arr_end = r.uint32() + r.pos`.
fn array_end() -> (r: Statement)
    ensures
        stmt_text(r) == "const arr_end = "@ + reader_call_text("uint32"@) + " + r"@ + property_suffix("pos"@),
        stmt_ok(r),
{
    let length = reader_call("uint32");
    let end = BinaryOperator::Plus.apply(length, reader_pos());
    let ghost ev = end;
    let r = Statement::VariableStatement(VariableDeclarationList::declare_const(Identifier::new("arr_end"), end));
    proof {
        lemma_const_text(r, "arr_end"@, ev);
        reveal_strlit(" + r");
        reveal_strlit(" ");
        reveal_strlit("+");
        reveal_strlit("r");
        reveal_strlit("const arr_end = ");
        reveal_strlit("const ");
        reveal_strlit("arr_end");
        reveal_strlit(" = ");
        assert(expr_text(ev) =~= reader_call_text("uint32"@) + " + r"@ + property_suffix("pos"@));
        assert(stmt_text(r) =~= "const arr_end = "@ + reader_call_text("uint32"@) + " + r"@ + property_suffix("pos"@));
    }
    r
}

/// `while (r.pos < arr_end) { message.<name>.push(r.<method>()) }`.
fn read_elements(name: &str, method: &str) -> (r: Statement)
    ensures
        stmt_text(r) == "while (r"@ + property_suffix("pos"@) + " < arr_end) {\n"@
            + indent_text(push_text(name@, reader_call_text(method@))) + "}"@,
        stmt_ok(r),
{
    let pos = reader_pos();
    let ghost pt = expr_text(pos);
    let end = Expression::id("arr_end");
    assert(expr_text(end) == "arr_end"@);
    let condition = BinaryOperator::LessThan.apply(pos, end);
    let ghost cv = condition;
    assert(expr_text(cv) == pt + " "@ + "<"@ + " "@ + "arr_end"@);
    assert(expr_ok(end));
    assert(expr_ok(cv));
    let mut element_while = WhileStatement::new(condition);
    let push = Statement::Expression(push_element(name, reader_call(method)));
    let ghost pv = push;
    element_while.statement.push_statement(push);
    proof {
        assert(element_while.statement.statements@ =~= seq![pv]);
        lemma_one_stmt(pv);
        reveal_strlit(" < arr_end");
        reveal_strlit(" ");
        reveal_strlit("<");
        reveal_strlit("arr_end");
        reveal_strlit("while (r");
        reveal_strlit("while (");
        reveal_strlit("r");
        reveal_strlit(") ");
        reveal_strlit(" < arr_end) {\n");
        reveal_strlit("{\n");
        assert(expr_text(cv) =~= "r"@ + property_suffix("pos"@) + " < arr_end"@);
    }
    assert(block_text(element_while.statement) == "{\n"@ + indent_text(stmt_text(pv)) + "}"@);
    assert(stmt_ok(pv));
    let r = Statement::While(Box::new(element_while));
    assert(stmt_text(r) == "while ("@ + expr_text(cv) + ") "@ + block_text(element_while.statement));
    assert(stmt_text(r) =~= "while (r"@ + property_suffix("pos"@) + " < arr_end) {\n"@
        + indent_text(push_text(name@, reader_call_text(method@))) + "}"@);
    r
}

/// Elements read packed, behind one key and their length, or one by one.
fn packed_read(name: &str, method: &str) -> (r: Statement)
    ensures
        stmt_text(r) == packed_read_text(name@, method@),
        stmt_ok(r),
{
    let first = array_end();
    let second = read_elements(name, method);
    let mut block = Block::new();
    block.push_statement(first);
    block.push_statement(second);
    proof {
        assert(block.statements@ =~= seq![first, second]);
        lemma_two_stmts(first, second);
    }
    let tag = Expression::id("tag");
    assert(expr_text(tag) == "tag"@);
    assert(expr_text(Expression::NumericLiteral(7)) == int_text(7));
    assert(expr_text(Expression::NumericLiteral(2)) == int_text(2));
    let masked = BinaryOperator::BinaryAnd.apply(tag, Expression::NumericLiteral(7));
    assert(expr_text(masked) == "tag"@ + " "@ + "&"@ + " "@ + int_text(7));
    assert(expr_ok(tag) && expr_ok(Expression::NumericLiteral(7)) && expr_ok(Expression::NumericLiteral(2)));
    assert(expr_ok(masked));
    let wire = masked.into_parentheses();
    assert(expr_text(wire) == "("@ + expr_text(masked) + ")"@);
    assert(expr_ok(wire));
    let packed = BinaryOperator::StrictEqual.apply(wire, Expression::NumericLiteral(2));
    let ghost kv = packed;
    assert(expr_text(kv) == "("@ + expr_text(masked) + ")"@ + " "@ + "==="@ + " "@ + int_text(2));
    assert(expr_ok(kv));
    let one_by_one = Statement::Expression(push_element(name, reader_call(method)));
    let ghost ov = one_by_one;
    assert(stmt_text(ov) == push_text(name@, reader_call_text(method@)));
    assert(stmt_ok(ov));
    let then_statement = Statement::Block(block);
    let ghost tv = then_statement;
    let r = Statement::IfStatement(IfStatement {
        expression: packed,
        then_statement: Box::new(then_statement),
        else_statement: Some(Box::new(one_by_one)),
    });
    proof {
        reveal_strlit("tag & ");
        reveal_strlit(" === ");
        reveal_strlit("if ((tag & ");
        reveal_strlit(") === ");
        reveal_strlit(") {\n");
        reveal_strlit("} else ");
        reveal_strlit("if (");
        reveal_strlit(") ");
        reveal_strlit(" else ");
        reveal_strlit("(");
        reveal_strlit(")");
        reveal_strlit("tag");
        reveal_strlit(" ");
        reveal_strlit("&");
        reveal_strlit("===");
        reveal_strlit("{\n");
        reveal_strlit("}");
        assert(expr_text(kv) =~= "("@ + "tag & "@ + int_text(7) + ")"@ + " === "@ + int_text(2));
        assert(stmt_text(tv) == block_text(tv->Block_0));
        assert(stmt_text(r) == "if ("@ + expr_text(kv) + ") "@ + stmt_text(tv) + " else "@ + stmt_text(ov));
        assert(stmt_text(r) =~= packed_read_text(name@, method@));
        assert(stmt_ok(tv));
        assert(stmt_ok(r));
    }
    r
}

/// Whether a field can be decoded: maps cannot yet, nor repeated containers.
pub open spec fn decodable(t: TypeV) -> bool {
    match t {
        TypeV::MapOf(_, _) => false,
        TypeV::Repeated(e) => !(*e is Repeated || *e is MapOf),
        _ => true,
    }
}

/// The statements of the case that decodes a field: the value read, then `break`.
fn decode_field_statements(root: &RootScope, message_id: usize, file: &mut File, field: &Field) -> (r: Result<Vec<Statement>, ProtoError>)
    ensures
        final(file).name == old(file).name,
        final(file).statements@.len() >= old(file).statements@.len(),
        !decodable(field.field_type@) ==> r is Err,
        decodable(field.field_type@) && !refers_to_message(field.field_type@) ==> r is Ok,
        r matches Ok(v) ==> stmts_ok(v@) && stmts_indented(v@) == field_decode_text(*root, message_id, field@),
        same_or_one_import_more(old(file).statements@, final(file).statements@),
        r is Ok ==> has_decoder_import(final(file).statements@, *root, message_id, field.field_type@),
        all_imports(old(file).statements@) ==> (r is Ok <==> (decodable(field.field_type@)
            && decoder_found(*root, message_id, field.field_type@)
            && (decoder_import_path(*root, message_id, field.field_type@) matches Some(p) ==> !imports_path(old(file).statements@, p)))),
        all_imports(old(file).statements@) && r is Ok ==> all_imports(final(file).statements@),
        all_imports(old(file).statements@) && r is Ok ==> forall|q: Seq<char>| #[trigger] imports_path(final(file).statements@, q)
            <==> (imports_path(old(file).statements@, q) || decoder_import_path(*root, message_id, field.field_type@) == Some(q)),
        all_imports(old(file).statements@) && r is Ok ==> match decoder_import_path(*root, message_id, field.field_type@) {
            Some(p) => final(file).statements@ == old(file).statements@.push(final(file).statements@.last())
                && is_function_import(final(file).statements@.last(), decode_alias(held_message(field.field_type@)->0), "decode"@, p),
            None => final(file).statements@ == old(file).statements@,
        },
{
    let js_name = field.json_name();
    let name = js_name.as_str();
    let ghost f = field@;
    let ghost n = json_name_of(f.attributes, f.name);
    assert(n == name@);
    let mut statements: Vec<Statement> = Vec::new();
    let ghost body: Seq<char>;
    match &field.field_type {
        FieldType::Message(m_id) => {
            let ghost before = file.statements@;
            let found = import_decode_func(root, message_id, file, *m_id);
            proof {
                if all_imports(before) {
                    lemma_function_import_outcome(before, file.statements@, decoder_ref(*root, message_id, *m_id), found is Ok);
                }
            }
            let decode = found?;
            proof {
                if let Some(Some(path)) = decoder_ref(*root, message_id, *m_id) {
                    lemma_import_slot(before, path);
                    assert(is_function_import(file.statements@[import_slot(before, path)], decode_alias(*m_id), "decode"@, path));
                    assert(has_function_import(file.statements@, decode_alias(*m_id), "decode"@, path));
                    if all_imports(before) {
                        lemma_slot_after_all_imports(before, path);
                        assert(file.statements@ =~= before.push(file.statements@.last()));
                    }
                }
            }
            let s = assign_field(name, decode_call(decode));
            statements.push(s);
            proof {
                body = indent_text(assign_text(n, decode_call_text(decoder_name(*root, message_id, *m_id))));
                lemma_one_stmt(s);
                assert(statements@ =~= seq![s]);
            }
        },
        FieldType::Repeated(t) => {
            let element_type = match &**t {
                FieldType::Enum(_) => FieldType::Int32,
                other => other.duplicate(),
            };
            let ghost et = if (**t)@ is Enum { TypeV::Int32 } else { (**t)@ };
            assert(element_type@ == et);
            assert(f.field_type == TypeV::Repeated(Box::new((**t)@)));
            let reset = reset_field(name);
            let read = match element_type.packed_wire_type() {
                Some(_) => packed_read(name, element_type.scalar_name()),
                None => {
                    match &element_type {
                        FieldType::Message(m) => {
                            let ghost before = file.statements@;
                            let found = import_decode_func(root, message_id, file, *m);
                            proof {
                                if all_imports(before) {
                                    lemma_function_import_outcome(before, file.statements@, decoder_ref(*root, message_id, *m), found is Ok);
                                }
                            }
                            let decode = found?;
                            proof {
                                if let Some(Some(path)) = decoder_ref(*root, message_id, *m) {
                                    lemma_import_slot(before, path);
                    assert(is_function_import(file.statements@[import_slot(before, path)], decode_alias(*m), "decode"@, path));
                    assert(has_function_import(file.statements@, decode_alias(*m), "decode"@, path));
                    if all_imports(before) {
                        lemma_slot_after_all_imports(before, path);
                        assert(file.statements@ =~= before.push(file.statements@.last()));
                    }
                                }
                            }
                            Statement::Expression(push_element(name, decode_call(decode)))
                        },
                        FieldType::Repeated(_) | FieldType::MapOf(_, _) | FieldType::Enum(_) => {
                            assert(et is Repeated || et is MapOf);
                            assert(!decodable(f.field_type));
                            return Err(ProtoError::new("Cannot decode a repeated field of this type"));
                        },
                        basic => Statement::Expression(push_element(name, reader_call(basic.scalar_name()))),
                    }
                },
            };
            statements.push(reset);
            statements.push(read);
            proof {
                body = indent_text(reset_text(n)) + if resolved_packed_wire_type(et) is Some {
                    indent_text(packed_read_text(n, scalar_name(et)))
                } else {
                    match et {
                        TypeV::Message(m) => indent_text(push_text(n, decode_call_text(decoder_name(*root, message_id, m as usize)))),
                        _ => indent_text(push_text(n, reader_call_text(scalar_name(et)))),
                    }
                };
                lemma_two_stmts(reset, read);
                assert(statements@ =~= seq![reset, read]);
            }
        },
        FieldType::MapOf(_, _) => {
            return Err(ProtoError::NotImplemented("decoding of map fields".to_string()));
        },
        FieldType::Enum(_) => {
            let s = assign_field(name, reader_call("int32"));
            statements.push(s);
            proof {
                body = indent_text(assign_text(n, reader_call_text("int32"@)));
                lemma_one_stmt(s);
                assert(statements@ =~= seq![s]);
            }
        },
        basic => {
            let s = assign_field(name, reader_call(basic.scalar_name()));
            statements.push(s);
            proof {
                body = indent_text(assign_text(n, reader_call_text(scalar_name(f.field_type))));
                lemma_one_stmt(s);
                assert(statements@ =~= seq![s]);
            }
        },
    }
    assert(stmts_ok(statements@));
    assert(stmts_indented(statements@) == body);
    let ghost before = statements@;
    statements.push(Statement::Break);
    proof {
        reveal_strlit("break");
        assert(statements@.subrange(0, statements@.len() - 1) =~= before);
        assert(stmt_text(Statement::Break) == "break"@);
        assert(stmt_ok(Statement::Break));
        assert(stmts_ok(statements@));
        assert(stmts_indented(statements@) == body + indent_text("break"@));
        assert(stmts_indented(statements@) =~= field_decode_text(*root, message_id, f));
    }
    Ok(statements)
}

/// `const r = reader instanceof Reader ? reader : Reader.create(reader)`.
pub open spec fn reader_declaration_text() -> Seq<char> {
    "const r = reader instanceof Reader ? reader : "@ + method_call_text("Reader"@, "create"@, seq!["reader"@])
}

/// `const end = length === undefined ? r.len : r.pos + length`.
pub open spec fn end_declaration_text() -> Seq<char> {
    "const end = length === undefined ? r"@ + property_suffix("len"@) + " : r"@ + property_suffix("pos"@) + " + length"@
}

/// `const r = reader instanceof Reader ? reader : Reader.create(reader)`.
fn reader_declaration() -> (r: Statement)
    ensures
        stmt_text(r) == reader_declaration_text(),
        stmt_ok(r),
{
    let reader = Expression::id("reader");
    let reader_type = Expression::id("Reader");
    assert(expr_text(reader) == "reader"@ && expr_ok(reader));
    assert(expr_text(reader_type) == "Reader"@ && expr_ok(reader_type));
    let instance = BinaryOperator::InstanceOf.apply(reader, reader_type);
    let ghost iv = instance;
    assert(expr_text(iv) == "reader"@ + " "@ + "instanceof"@ + " "@ + "Reader"@);
    assert(expr_ok(iv));
    let mut create_args: Vec<Expression> = Vec::new();
    create_args.push(Expression::id("reader"));
    let ghost av = create_args@;
    let create_on = Expression::id("Reader");
    let ghost cov = create_on;
    let create = create_on.into_method_call("create", create_args);
    proof {
        lemma_one_expr(av[0]);
        assert(av =~= seq![av[0]]);
        lemma_method_call(create, cov, "create"@, av);
    }
    let when_true = Expression::id("reader");
    assert(expr_text(when_true) == "reader"@ && expr_ok(when_true));
    let init = Expression::conditional(instance, when_true, create);
    let ghost cv = init;
    let r = Statement::VariableStatement(VariableDeclarationList::declare_const(Identifier::new("r"), init));
    proof {
        lemma_const_text(r, "r"@, cv);
        reveal_strlit("const r = reader instanceof Reader ? reader : ");
        reveal_strlit("const ");
        reveal_strlit("r");
        reveal_strlit(" = ");
        reveal_strlit("reader");
        reveal_strlit(" ");
        reveal_strlit("instanceof");
        reveal_strlit("Reader");
        reveal_strlit(" ? ");
        reveal_strlit(" : ");
        assert(expr_text(cv) == expr_text(iv) + " ? "@ + "reader"@ + " : "@ + expr_text(create));
        assert(stmt_text(r) =~= reader_declaration_text());
        assert(expr_ok(cv));
    }
    r
}

/// `const end = length === undefined ? r.len : r.pos + length`.
fn end_declaration() -> (r: Statement)
    ensures
        stmt_text(r) == end_declaration_text(),
        stmt_ok(r),
{
    let length = Expression::id("length");
    assert(expr_text(length) == "length"@);
    assert(expr_text(Expression::Undefined) == "undefined"@);
    assert(expr_ok(length) && expr_ok(Expression::Undefined));
    let no_length = BinaryOperator::StrictEqual.apply(length, Expression::Undefined);
    let ghost nv = no_length;
    assert(expr_text(nv) == "length"@ + " "@ + "==="@ + " "@ + "undefined"@);
    assert(expr_ok(nv));
    let reader = Expression::id("r");
    assert(expr_ok(reader) && !is_bare_literal(reader) && !wraps_for_property(reader));
    assert(expr_text(reader) == "r"@);
    let len = reader.into_prop("len");
    assert(expr_text(len) == "r"@ + property_suffix("len"@));
    let pos = reader_pos();
    let ghost pt = expr_text(pos);
    let length_again = Expression::id("length");
    assert(expr_text(length_again) == "length"@ && expr_ok(length_again));
    let sum = BinaryOperator::Plus.apply(pos, length_again);
    let ghost sv = sum;
    assert(expr_text(sv) == pt + " "@ + "+"@ + " "@ + "length"@);
    assert(expr_ok(sv));
    let ghost lv = len;
    let init = Expression::conditional(no_length, len, sum);
    let ghost cv = init;
    let r = Statement::VariableStatement(VariableDeclarationList::declare_const(Identifier::new("end"), init));
    proof {
        lemma_const_text(r, "end"@, cv);
        reveal_strlit("const end = length === undefined ? r");
        reveal_strlit(" : r");
        reveal_strlit(" + length");
        reveal_strlit("const ");
        reveal_strlit("end");
        reveal_strlit(" = ");
        reveal_strlit("length");
        reveal_strlit(" ");
        reveal_strlit("===");
        reveal_strlit("undefined");
        reveal_strlit("r");
        reveal_strlit("+");
        reveal_strlit(" ? ");
        reveal_strlit(" : ");
        assert(expr_text(cv) == expr_text(nv) + " ? "@ + expr_text(lv) + " : "@ + expr_text(sv));
        assert(stmt_text(r) =~= end_declaration_text());
        assert(expr_ok(lv));
        assert(expr_ok(cv));
    }
    r
}

/// Each field read in a case of its number, each case indented.
pub open spec fn decode_cases_text(root: RootScope, parent: usize, fs: Seq<FieldV>) -> Seq<char>
    decreases fs.len(),
{
    if fs.len() == 0 {
        Seq::empty()
    } else {
        decode_cases_text(root, parent, fs.drop_last()) + indent_text(
            "case "@ + int_text(fs.last().tag) + ":\n"@ + field_decode_text(root, parent, fs.last()),
        )
    }
}

/// `switch (tag >>> 3) { <cases> default: r.skipType(tag & 7); break }`.
pub open spec fn switch_text(root: RootScope, parent: usize, fs: Seq<FieldV>) -> Seq<char> {
    "switch (tag >>> "@ + int_text(3) + ") {\n"@ + decode_cases_text(root, parent, fs) + indent_text(
        "default:\n"@ + indent_text(method_call_text("r"@, "skipType"@, seq!["tag & "@ + int_text(7)])) + indent_text("break"@),
    ) + "}"@
}

/// `while (r.pos < end) { const tag = r.uint32(); <switch> }`.
pub open spec fn read_loop_text(root: RootScope, parent: usize, fs: Seq<FieldV>) -> Seq<char> {
    "while (r"@ + property_suffix("pos"@) + " < end) {\n"@ + indent_text("const tag = "@ + reader_call_text("uint32"@))
        + indent_text(switch_text(root, parent, fs)) + "}"@
}

/// The decoding function of a message: the reader and where to stop, the message
/// with each field at its initial value, then each field read by its number until
/// the end (unknown numbers skipped), then the message.
pub open spec fn decode_function_text(root: RootScope, m: MessageScope) -> Seq<char> {
    let fs = fields_view(message_fields_of(m.entries@));
    "export function decode(reader: Reader | Uint8Array, length?: number): "@ + m.name@ + " {\n"@
        + indent_text(reader_declaration_text()) + indent_text(end_declaration_text())
        + indent_text("const message = "@ + default_object_text(fs)) + indent_text(read_loop_text(root, m.id, fs))
        + indent_text("return message"@) + "}"@
}

/// `const tag = r.uint32()`.
fn tag_declaration() -> (r: Statement)
    ensures
        stmt_text(r) == "const tag = "@ + reader_call_text("uint32"@),
        stmt_ok(r),
{
    let init = reader_call("uint32");
    let ghost iv = init;
    let r = Statement::VariableStatement(VariableDeclarationList::declare_const(Identifier::new("tag"), init));
    proof {
        lemma_const_text(r, "tag"@, iv);
        reveal_strlit("const tag = ");
        reveal_strlit("const ");
        reveal_strlit("tag");
        reveal_strlit(" = ");
        assert(stmt_text(r) =~= "const tag = "@ + reader_call_text("uint32"@));
    }
    r
}

/// `default: r.skipType(tag & 7); break`.
fn skip_clause() -> (r: DefaultClause)
    ensures
        stmts_indented(r.statements@) == indent_text(method_call_text("r"@, "skipType"@, seq!["tag & "@ + int_text(7)]))
            + indent_text("break"@),
        stmts_ok(r.statements@),
{
    let tag = Expression::id("tag");
    assert(expr_text(tag) == "tag"@ && expr_ok(tag));
    assert(expr_text(Expression::NumericLiteral(7)) == int_text(7) && expr_ok(Expression::NumericLiteral(7)));
    let masked = BinaryOperator::BinaryAnd.apply(tag, Expression::NumericLiteral(7));
    let ghost mv = masked;
    assert(expr_text(mv) == "tag"@ + " "@ + "&"@ + " "@ + int_text(7));
    assert(expr_ok(mv));
    let mut skip_args: Vec<Expression> = Vec::new();
    skip_args.push(masked);
    let reader = Expression::id("r");
    let ghost rv = reader;
    assert(expr_text(reader) == "r"@ && expr_ok(reader));
    let call = reader.into_method_call("skipType", skip_args);
    proof {
        lemma_one_expr(mv);
        assert(skip_args@ =~= seq![mv]);
        lemma_method_call(call, rv, "skipType"@, seq![mv]);
        reveal_strlit("tag & ");
        reveal_strlit("tag");
        reveal_strlit(" ");
        reveal_strlit("&");
        assert(expr_text(mv) =~= "tag & "@ + int_text(7));
    }
    let first = Statement::Expression(call);
    let mut r = DefaultClause::new();
    r.statements.push(first);
    r.statements.push(Statement::Break);
    proof {
        assert(r.statements@ =~= seq![first, Statement::Break]);
        lemma_two_stmts(first, Statement::Break);
        reveal_strlit("break");
        assert(stmt_text(Statement::Break) == "break"@);
        assert(stmt_ok(Statement::Break));
    }
    r
}

/// `tag >>> 3`.
fn field_number() -> (r: Expression)
    ensures
        expr_text(r) == "tag >>> "@ + int_text(3),
        expr_ok(r),
{
    let tag = Expression::id("tag");
    assert(expr_text(tag) == "tag"@ && expr_ok(tag));
    assert(expr_text(Expression::NumericLiteral(3)) == int_text(3) && expr_ok(Expression::NumericLiteral(3)));
    let r = BinaryOperator::UnsignedRightShift.apply(tag, Expression::NumericLiteral(3));
    proof {
        reveal_strlit("tag >>> ");
        reveal_strlit("tag");
        reveal_strlit(" ");
        reveal_strlit(">>>");
        assert(expr_text(r) =~= "tag >>> "@ + int_text(3));
    }
    r
}

/// `const message = <each field at its initial value>` (the declared type is not written).
fn message_declaration(message_scope: &MessageScope) -> (r: Statement)
    ensures
        stmt_text(r) == "const message = "@ + default_object_text(fields_view(message_fields_of(message_scope.entries@))),
        stmt_ok(r),
{
    let init = get_default_message_value(message_scope);
    let ghost iv = init;
    let r = Statement::VariableStatement(VariableDeclarationList::declare_typed_const(
        Identifier::new("message"),
        Type::from_id(message_scope.name.as_str()),
        init,
    ));
    proof {
        lemma_const_text(r, "message"@, iv);
        reveal_strlit("const message = ");
        reveal_strlit("const ");
        reveal_strlit("message");
        reveal_strlit(" = ");
        assert(stmt_text(r) =~= "const message = "@ + default_object_text(fields_view(message_fields_of(message_scope.entries@))));
    }
    r
}

/// The text of the switch built by `compile_decode`.
proof fn lemma_switch_text(sw: SwitchStatement, root: RootScope, parent: usize, fs: Seq<FieldV>)
    requires
        expr_text(sw.expression) == "tag >>> "@ + int_text(3),
        stmts_indented(sw.default.statements@) == indent_text(method_call_text("r"@, "skipType"@, seq!["tag & "@ + int_text(7)]))
            + indent_text("break"@),
        cases_text(sw.cases@) == decode_cases_text(root, parent, fs),
    ensures
        stmt_text(Statement::Switch(Box::new(sw))) == switch_text(root, parent, fs),
{
    reveal_strlit("switch (tag >>> ");
    reveal_strlit("switch (");
    reveal_strlit("tag >>> ");
    reveal_strlit(") {\n");
    let st = Statement::Switch(Box::new(sw));
    assert(stmt_text(st) == "switch ("@ + expr_text(sw.expression) + ") {\n"@ + cases_text(sw.cases@)
        + indent_text("default:\n"@ + stmts_indented(sw.default.statements@)) + "}"@);
    assert("default:\n"@ + stmts_indented(sw.default.statements@) =~= "default:\n"@ + indent_text(
        method_call_text("r"@, "skipType"@, seq!["tag & "@ + int_text(7)]),
    ) + indent_text("break"@));
    assert(stmt_text(st) =~= switch_text(root, parent, fs));
}

/// Whether `f` is the decoding function of message `name`:
/// `export function decode(reader: Reader | Uint8Array, length?: number): <name>`.
pub open spec fn decode_function_header(f: FunctionDeclaration, name: Seq<char>) -> bool {
    &&& f.modifiers@ == seq![Modifier::Export]
    &&& f.name.text@ == "decode"@
    &&& f.parameters@.len() == 2
    &&& f.parameters@[0].name.text@ == "reader"@ && !f.parameters@[0].optional
    &&& f.parameters@[0].parameter_type@ == TsTypeV::Union(seq![TsTypeV::Reference(seq!["Reader"@]), TsTypeV::Reference(seq!["Uint8Array"@])])
    &&& f.parameters@[1].name.text@ == "length"@ && f.parameters@[1].optional
    &&& f.parameters@[1].parameter_type@ == TsTypeV::Number
    &&& f.return_type@ == TsTypeV::Reference(seq![name])
}

/// Adds to the switch the case that reads a field.
fn add_field_case(root: &RootScope, message_id: usize, file: &mut File, switch_stmt: &mut SwitchStatement, field: &Field) -> (r: Result<(), ProtoError>)
    ensures
        final(file).name == old(file).name,
        final(file).statements@.len() >= old(file).statements@.len(),
        !decodable(field.field_type@) ==> r is Err,
        decodable(field.field_type@) && !refers_to_message(field.field_type@) ==> r is Ok,
        r is Ok ==> (final(switch_stmt).expression == old(switch_stmt).expression
            && final(switch_stmt).default == old(switch_stmt).default
            && cases_text(final(switch_stmt).cases@) == cases_text(old(switch_stmt).cases@) + indent_text(
                "case "@ + int_text(field@.tag) + ":\n"@ + field_decode_text(*root, message_id, field@),
            )
            && (cases_ok(old(switch_stmt).cases@) ==> cases_ok(final(switch_stmt).cases@))),
        same_or_one_import_more(old(file).statements@, final(file).statements@),
        r is Ok ==> has_decoder_import(final(file).statements@, *root, message_id, field.field_type@),
        all_imports(old(file).statements@) ==> (r is Ok <==> (decodable(field.field_type@)
            && decoder_found(*root, message_id, field.field_type@)
            && (decoder_import_path(*root, message_id, field.field_type@) matches Some(p) ==> !imports_path(old(file).statements@, p)))),
        all_imports(old(file).statements@) && r is Ok ==> all_imports(final(file).statements@),
        all_imports(old(file).statements@) && r is Ok ==> forall|q: Seq<char>| #[trigger] imports_path(final(file).statements@, q)
            <==> (imports_path(old(file).statements@, q) || decoder_import_path(*root, message_id, field.field_type@) == Some(q)),
        all_imports(old(file).statements@) && r is Ok ==> match decoder_import_path(*root, message_id, field.field_type@) {
            Some(p) => final(file).statements@ == old(file).statements@.push(final(file).statements@.last())
                && is_function_import(final(file).statements@.last(), decode_alias(held_message(field.field_type@)->0), "decode"@, p),
            None => final(file).statements@ == old(file).statements@,
        },
{
    let statements = decode_field_statements(root, message_id, file, field)?;
    let ghost sv = statements@;
    let mut case_clause = CaseClause::new(Expression::NumericLiteral(field.tag));
    case_clause.statements = statements;
    let ghost cc = case_clause;
    let ghost before = switch_stmt.cases@;
    switch_stmt.add_case(case_clause);
    proof {
        let cs = switch_stmt.cases@;
        assert(cs.subrange(0, cs.len() - 1) =~= before);
        assert(cs[cs.len() - 1] == cc);
        assert(expr_text(cc.expression) == int_text(field@.tag));
        assert(expr_ok(cc.expression));
    }
    Ok(())
}

/// `while (r.pos < end) { const tag = r.uint32(); <switch> }`.
fn read_loop(switch_stmt: SwitchStatement, Ghost(root): Ghost<RootScope>, Ghost(parent): Ghost<usize>, Ghost(fs): Ghost<Seq<FieldV>>) -> (r: Statement)
    requires
        expr_text(switch_stmt.expression) == "tag >>> "@ + int_text(3),
        expr_ok(switch_stmt.expression),
        stmts_indented(switch_stmt.default.statements@) == indent_text(method_call_text("r"@, "skipType"@, seq!["tag & "@ + int_text(7)]))
            + indent_text("break"@),
        stmts_ok(switch_stmt.default.statements@),
        cases_text(switch_stmt.cases@) == decode_cases_text(root, parent, fs),
        cases_ok(switch_stmt.cases@),
    ensures
        stmt_text(r) == read_loop_text(root, parent, fs),
        stmt_ok(r),
{
    let ghost sw = switch_stmt;
    let tag = tag_declaration();
    let switch_statement = Statement::Switch(Box::new(switch_stmt));
    proof {
        lemma_switch_text(sw, root, parent, fs);
        assert(stmt_ok(switch_statement));
    }
    let pos = reader_pos();
    let end = Expression::id("end");
    assert(expr_text(end) == "end"@ && expr_ok(end));
    let condition = BinaryOperator::LessThan.apply(pos, end);
    let ghost wc = condition;
    proof {
        reveal_strlit(" < end");
        reveal_strlit(" ");
        reveal_strlit("<");
        reveal_strlit("end");
        assert(expr_text(wc) =~= "r"@ + property_suffix("pos"@) + " < end"@);
        assert(expr_ok(wc));
    }
    let mut while_loop = WhileStatement::new(condition);
    while_loop.statement.push_statement(tag);
    while_loop.statement.push_statement(switch_statement);
    let ghost body = while_loop.statement;
    let r = Statement::While(Box::new(while_loop));
    proof {
        assert(body.statements@ =~= seq![tag, switch_statement]);
        lemma_two_stmts(tag, switch_statement);
        reveal_strlit("while (r");
        reveal_strlit("while (");
        reveal_strlit(") ");
        reveal_strlit(" < end) {\n");
        reveal_strlit("{\n");
        assert(block_text(body) == "{\n"@ + stmts_indented(seq![tag, switch_statement]) + "}"@);
        assert(stmt_text(r) == "while ("@ + expr_text(wc) + ") "@ + block_text(body));
        reveal_strlit("r");
        reveal_strlit(" < end");
        assert(stmt_text(switch_statement) == switch_text(root, parent, fs));
        assert(expr_text(wc) == "r"@ + property_suffix("pos"@) + " < end"@);
        assert(stmt_text(r) =~= read_loop_text(root, parent, fs));
        assert(stmt_ok(r));
    }
    r
}

/// The text of the decoding function built by `compile_decode`.
#[verifier::rlimit(40)]
proof fn lemma_decode_function_text(f: FunctionDeclaration, root: RootScope, m: MessageScope)
    requires
        decode_function_header(f, m.name@),
        f.body.statements@.len() > 0,
        stmts_indented(f.body.statements@) == indent_text(reader_declaration_text()) + indent_text(end_declaration_text())
            + indent_text("const message = "@ + default_object_text(fields_view(message_fields_of(m.entries@))))
            + indent_text(read_loop_text(root, m.id, fields_view(message_fields_of(m.entries@))))
            + indent_text("return message"@),
    ensures
        function_text(f) == decode_function_text(root, m),
{
    let ps = f.parameters@.map_values(|p: Parameter| parameter_text(p));
    reveal_with_fuel(join, 2);
    reveal_with_fuel(modifiers_text, 2);
    reveal_with_fuel(union_member_texts, 3);
    reveal_strlit("reader");
    reveal_strlit("length");
    reveal_strlit("Reader");
    reveal_strlit("Uint8Array");
    reveal_strlit("number");
    reveal_strlit("?");
    reveal_strlit(": ");
    reveal_strlit(", ");
    reveal_strlit(" | ");
    reveal_strlit("export ");
    reveal_strlit("function ");
    reveal_strlit("decode");
    reveal_strlit("(");
    reveal_strlit("): ");
    reveal_strlit(" ");
    reveal_strlit("{\n");
    reveal_strlit("export function decode(reader: Reader | Uint8Array, length?: number): ");
    reveal_strlit(" {\n");
    let reader_types = seq![TsTypeV::Reference(seq!["Reader"@]), TsTypeV::Reference(seq!["Uint8Array"@])];
    assert(type_text(TsTypeV::Reference(seq!["Reader"@])) == "Reader"@);
    assert(type_text(TsTypeV::Reference(seq!["Uint8Array"@])) == "Uint8Array"@);
    assert(reader_types.subrange(0, 1) =~= seq![TsTypeV::Reference(seq!["Reader"@])]);
    assert(seq![TsTypeV::Reference(seq!["Reader"@])].subrange(0, 0) =~= Seq::<TsTypeV>::empty());
    assert(union_member_texts(reader_types) =~= seq!["Reader"@, "Uint8Array"@]);
    assert(seq!["Reader"@, "Uint8Array"@].drop_last() =~= seq!["Reader"@]);
    assert(type_text(TsTypeV::Union(reader_types)) == "Reader"@ + " | "@ + "Uint8Array"@);
    assert(ps[0] == "reader"@ + Seq::<char>::empty() + ": "@ + "Reader"@ + " | "@ + "Uint8Array"@);
    assert(ps[1] == "length"@ + "?"@ + ": "@ + "number"@);
    assert(ps =~= seq![ps[0], ps[1]]);
    assert(seq![ps[0], ps[1]].drop_last() =~= seq![ps[0]]);
    assert(join(ps, ", "@) == ps[0] + ", "@ + ps[1]);
    assert(seq![Modifier::Export].drop_last() =~= Seq::<Modifier>::empty());
    assert(modifiers_text(seq![Modifier::Export]) == "export "@);
    assert(type_text(f.return_type@) == m.name@);
    assert(function_text(f) =~= decode_function_text(root, m));
}

/// The function imports of a decoding module whose fields are `fs`: one
/// `import { decode as d<id> } from "<path>"` for each field whose decoding function
/// lives in another module, in the order of the fields.
pub open spec fn decoder_imports_are(ss: Seq<Statement>, root: RootScope, parent: usize, fs: Seq<FieldV>) -> bool
    decreases fs.len(),
{
    if fs.len() == 0 {
        ss.len() == 0
    } else {
        match decoder_import_path(root, parent, fs.last().field_type) {
            Some(p) => ss.len() > 0
                && is_function_import(ss.last(), decode_alias(held_message(fs.last().field_type)->0), "decode"@, p)
                && decoder_imports_are(ss.drop_last(), root, parent, fs.drop_last()),
            None => decoder_imports_are(ss, root, parent, fs.drop_last()),
        }
    }
}

/// Whether `f` is the decode module of message `m`: the import of `Reader` from the
/// runtime, the import of the message's interface from `./types`, the imports of the
/// decode functions of the messages it holds (see `decoder_imports_are`), then its
/// decode function.
#[verifier::opaque]
pub open spec fn decode_module(root: RootScope, m: MessageScope, f: File) -> bool {
    let imports = f.statements@.drop_last();
    &&& f.name@ == "decode"@
    &&& f.statements@.len() >= 3
    &&& is_plain_import(imports[0], "Reader"@, "protobufjs/minimal"@)
    &&& is_plain_import(imports[1], m.name@, "./types"@)
    &&& decoder_imports_are(imports.skip(2), root, m.id, fields_view(message_fields_of(m.entries@)))
    &&& f.statements@.last() matches Statement::FunctionDeclaration(f)
        && decode_function_header(*f, m.name@)
        && stmts_ok(f.body.statements@)
        && function_text(*f) == decode_function_text(root, m)
    &&& all_imports(imports)
    &&& has_plain_import(imports, "Reader"@, "protobufjs/minimal"@)
    &&& has_plain_import(imports, m.name@, "./types"@)
    &&& forall|k: int| 0 <= k < message_fields_of(m.entries@).len() ==> has_decoder_import(
        imports,
        root,
        m.id,
        (#[trigger] message_fields_of(m.entries@)[k]).field_type@,
    )
}

/// Adds to the folder of a message its module `decode`, which imports `Reader` and the
/// message's interface and exports its decoding function. Each field is read in a
/// case of a switch on its number; maps are not decoded yet.
#[verifier::rlimit(50)]
pub fn compile_decode(root: &RootScope, message_folder: &mut Folder, message_scope: &MessageScope) -> (r: Result<(), ProtoError>)
    ensures
        (exists|k: int| 0 <= k < message_fields_of(message_scope.entries@).len()
            && !decodable(#[trigger] message_fields_of(message_scope.entries@)[k].field_type@)) ==> r is Err,
        (forall|k: int| 0 <= k < message_fields_of(message_scope.entries@).len() ==> {
            let f = #[trigger] message_fields_of(message_scope.entries@)[k];
            decodable(f.field_type@) && !refers_to_message(f.field_type@)
        }) ==> r is Ok,
        r is Ok <==> decode_succeeds(*root, *message_scope),
        r is Ok ==> (final(message_folder).name == old(message_folder).name
            && final(message_folder).entries@.len() == old(message_folder).entries@.len() + 1
            && final(message_folder).entries@.subrange(0, old(message_folder).entries@.len() as int) == old(message_folder).entries@),
        r is Ok ==> (final(message_folder).entries@.last() matches FolderEntry::File(file) && decode_module(*root, *message_scope, *file)),
{
    let mut file = File::new("decode".to_string());
    let mut reader_import: Vec<ImportSpecifier> = Vec::new();
    reader_import.push(ImportSpecifier::new(Identifier::new("Reader")));
    let runtime_path = StringLiteral::new(PROTOBUF_MODULE.to_string());
    assert(runtime_path.text@ == "protobufjs/minimal"@);
    let first_import = Statement::ImportDeclaration(Box::new(ImportDeclaration::import(reader_import, runtime_path)));
    assert(is_plain_import(first_import, "Reader"@, "protobufjs/minimal"@));
    file.push_statement(first_import);
    let mut type_import: Vec<ImportSpecifier> = Vec::new();
    type_import.push(ImportSpecifier::new(Identifier::new(message_scope.name.as_str())));
    let second_import = Statement::ImportDeclaration(Box::new(ImportDeclaration::import(
        type_import,
        StringLiteral::new("./types".to_string()),
    )));
    assert(is_plain_import(second_import, message_scope.name@, "./types"@));
    file.push_statement(second_import);
    assert(file.statements@[0] == first_import && file.statements@[1] == second_import);
    assert(has_plain_import(file.statements@, "Reader"@, "protobufjs/minimal"@));
    assert(has_plain_import(file.statements@, message_scope.name@, "./types"@));
    assert(all_imports(file.statements@));
    proof {
        assert forall|q: Seq<char>| #[trigger] imports_path(file.statements@, q) <==> (q == "protobufjs/minimal"@ || q == "./types"@) by {
            if imports_path(file.statements@, q) {
                let j = choose|j: int| 0 <= j < file.statements@.len() && import_path_of(#[trigger] file.statements@[j]) == q;
                assert(j == 0 || j == 1);
            }
            if q == "protobufjs/minimal"@ {
                assert(import_path_of(file.statements@[0]) == q);
            }
            if q == "./types"@ {
                assert(import_path_of(file.statements@[1]) == q);
            }
        }
    }

    let mut decode = FunctionDeclaration::new_exported(DECODE_FUNCTION_NAME);
    let mut reader_types: Vec<Type> = Vec::new();
    reader_types.push(Type::from_id("Reader"));
    reader_types.push(Type::from_id("Uint8Array"));
    proof {
        crate::compiler::ast::lemma_ts_types_view(reader_types@);
        assert(ts_types_view(reader_types@) =~= seq![TsTypeV::Reference(seq!["Reader"@]), TsTypeV::Reference(seq!["Uint8Array"@])]);
    }
    decode.add_param(Parameter::new("reader", Type::UnionType(UnionType { types: reader_types })));
    decode.add_param(Parameter::new_optional("length", Type::Number));
    decode.set_return_type(Type::from_id(message_scope.name.as_str()));

    let first = reader_declaration();
    let second = end_declaration();
    let third = message_declaration(message_scope);
    decode.push_statement(first);
    decode.push_statement(second);
    decode.push_statement(third);

    let mut switch_stmt = SwitchStatement::new(field_number(), skip_clause());
    let fields = message_scope.get_fields();
    let ghost fs = message_fields_of(message_scope.entries@);
    let ghost fv = fields_view(fs);
    assert(fields_view(fields@).len() == fields_view(fs).len());
    let ghost paths = decoder_paths(*root, message_scope.id, fv);
    proof {
        assert(fv.take(0) =~= Seq::<FieldV>::empty());
        assert(paths.take(0) =~= Seq::<Option<Seq<char>>>::empty());
        assert(file.statements@.skip(2).len() == 0);
        assert forall|q: Seq<char>| #[trigger] imports_path(file.statements@, q) <==> (q == "protobufjs/minimal"@ || q == "./types"@
            || paths.take(0).contains(Some(q))) by {}
    }
    let mut k: usize = 0;
    while k < fields.len()
        invariant
            k <= fields@.len(),
            fs == message_fields_of(message_scope.entries@),
            fields_view(fields@) == fv,
            fv == fields_view(fs),
            fields@.len() == fs.len(),
            file.name@ == "decode"@,
            file.statements@.len() >= 2,
            forall|q: int| 0 <= q < k ==> decodable(#[trigger] fs[q].field_type@),
            expr_text(switch_stmt.expression) == "tag >>> "@ + int_text(3),
            expr_ok(switch_stmt.expression),
            stmts_indented(switch_stmt.default.statements@) == indent_text(
                method_call_text("r"@, "skipType"@, seq!["tag & "@ + int_text(7)]),
            ) + indent_text("break"@),
            stmts_ok(switch_stmt.default.statements@),
            cases_text(switch_stmt.cases@) == decode_cases_text(*root, message_scope.id, fv.take(k as int)),
            cases_ok(switch_stmt.cases@),
            all_imports(file.statements@),
            has_plain_import(file.statements@, "Reader"@, "protobufjs/minimal"@),
            has_plain_import(file.statements@, message_scope.name@, "./types"@),
            forall|q: int| 0 <= q < k ==> has_decoder_import(file.statements@, *root, message_scope.id, #[trigger] fv[q].field_type),
            paths == decoder_paths(*root, message_scope.id, fv),
            fresh_paths(paths.take(k as int)),
            imports_exactly(file.statements@, paths.take(k as int)),
            forall|q: int| 0 <= q < k ==> decoder_found(*root, message_scope.id, #[trigger] fs[q].field_type@),
            is_plain_import(file.statements@[0], "Reader"@, "protobufjs/minimal"@),
            is_plain_import(file.statements@[1], message_scope.name@, "./types"@),
            decoder_imports_are(file.statements@.skip(2), *root, message_scope.id, fv.take(k as int)),
        decreases fields@.len() - k,
    {
        proof {
            assert(fields_view(fields@)[k as int] == fields@[k as int]@);
            assert(fv[k as int] == fs[k as int]@);
        }
        let ghost before = file.statements@;
        let added = add_field_case(root, message_scope.id, &mut file, &mut switch_stmt, &fields[k]);
        proof {
            assert(paths[k as int] == decoder_import_path(*root, message_scope.id, fv[k as int].field_type));
            lemma_fresh_step(before, file.statements@, paths, k as int);
        }
        match added {
            Ok(()) => {},
            Err(e) => {
                proof {
                    assert(!(decodable(fs[k as int].field_type@) && !refers_to_message(fs[k as int].field_type@)));
                    if decodable(fs[k as int].field_type@) && decoder_found(*root, message_scope.id, fs[k as int].field_type@) {
                        assert(!fresh_at(paths, k as int));
                    }
                }
                return Err(e);
            },
        }
        proof {
            assert(fv.take(k + 1).drop_last() =~= fv.take(k as int));
            assert(fv.take(k + 1).last() == fv[k as int]);
            assert(fv[k as int] == fields@[k as int]@);
            match decoder_import_path(*root, message_scope.id, fv[k as int].field_type) {
                Some(p) => {
                    assert(file.statements@.skip(2).drop_last() =~= before.skip(2));
                    assert(file.statements@.skip(2).last() == file.statements@.last());
                    assert(file.statements@[0] == before[0]);
                    assert(file.statements@[1] == before[1]);
                },
                None => {},
            }
            lemma_one_import_more(before, file.statements@);
            assert forall|q: int| 0 <= q < k + 1 implies has_decoder_import(file.statements@, *root, message_scope.id, #[trigger] fv[q].field_type) by {
                if q < k {
                    assert(has_decoder_import(before, *root, message_scope.id, fv[q].field_type));
                }
            }
        }
        k = k + 1;
    }
    proof {
        assert(fv.take(k as int) =~= fv);
        assert(paths.take(k as int) =~= paths);
    }
    let loop_statement = read_loop(switch_stmt, Ghost(*root), Ghost(message_scope.id), Ghost(fv));
    decode.push_statement(loop_statement);
    let last = Expression::id("message").into_return_statement();
    proof {
        reveal_strlit("return message");
        reveal_strlit("return ");
        reveal_strlit("message");
        assert(stmt_text(last) =~= "return message"@);
        assert(stmt_ok(last));
    }
    decode.push_statement(last);
    proof {
        let all = decode.body.statements@;
        assert(all =~= seq![first, second, third, loop_statement, last]);
        let s4 = seq![first, second, third, loop_statement];
        assert(all.subrange(0, 4) =~= s4);
        assert(s4.subrange(0, 3) =~= seq![first, second, third]);
        lemma_three_stmts(first, second, third);
        assert(stmts_indented(s4) == stmts_indented(seq![first, second, third]) + indent_text(stmt_text(loop_statement)));
        assert(stmts_indented(all) == stmts_indented(s4) + indent_text(stmt_text(last)));
        assert(stmts_ok(s4));
        assert(stmts_ok(all));
        lemma_decode_function_text(decode, *root, *message_scope);
    }
    let ghost imports = file.statements@;
    proof {
        assert forall|q: int| 0 <= q < fs.len() implies has_decoder_import(imports, *root, message_scope.id, #[trigger] fs[q].field_type@) by {
            assert(fv[q] == fs[q]@);
            assert(has_decoder_import(imports, *root, message_scope.id, fv[q].field_type));
        }
    }
    file.push_statement(Statement::FunctionDeclaration(Box::new(decode)));
    assert(file.statements@.drop_last() =~= imports);
    message_folder.push_file(file);
    assert(message_folder.entries@.subrange(0, old(message_folder).entries@.len() as int) =~= old(message_folder).entries@);
    proof {
        reveal(decode_module);
    }
    Ok(())
}

} // verus!
