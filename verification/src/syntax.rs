//! The grammar of schema files and its parser.
use vstd::prelude::*;
use crate::error::{ProtoError, ProtoErrorV};
use crate::id_generator::IdGenerator;
use crate::lexems::{Lexem, LexemV, LocatedLexem, LocatedLexemV, lexem_views};
use crate::package::{
    Declaration, DeclarationV, EnumDeclaration, EnumDeclarationV, EnumEntry, EnumEntryV,
    FieldDeclaration, FieldDeclarationV, FieldTypeReference, ImportPath, ImportPathV,
    MessageDeclaration, MessageDeclarationEntry, MessageDeclarationEntryV, MessageDeclarationV,
    ProtoFile, ProtoFileV, ProtoVersion, TypeRefV, type_ref_of_ids,
};
use crate::text::{int_text, push_char, push_int, views};

verus! {

/// How a lexem is written back in messages.
pub open spec fn lexem_text(l: LexemV) -> Seq<char> {
    match l {
        LexemV::Id(s) => s,
        LexemV::Equal => "="@,
        LexemV::StringLiteral(s) => "\""@ + s + "\""@,
        LexemV::SemiColon => ";"@,
        LexemV::Dot => "."@,
        LexemV::IntLiteral(i) => int_text(i),
        LexemV::OpenCurly => "{"@,
        LexemV::CloseCurly => "}"@,
        LexemV::OpenBracket => "["@,
        LexemV::CloseBracket => "]"@,
        LexemV::EOF => "EOF"@,
    }
}

/// A character inside a quoted debug rendering.
pub open spec fn escape_char(c: char) -> Seq<char> {
    if c == '"' {
        "\\\""@
    } else if c == '\\' {
        "\\\\"@
    } else if c == '\n' {
        "\\n"@
    } else if c == '\r' {
        "\\r"@
    } else if c == '\t' {
        "\\t"@
    } else if c == '\0' {
        "\\0"@
    } else {
        seq![c]
    }
}

pub open spec fn escaped(s: Seq<char>) -> Seq<char>
    decreases s.len(),
{
    if s.len() == 0 {
        Seq::empty()
    } else {
        escaped(s.drop_last()) + escape_char(s.last())
    }
}

/// How a lexem is shown for debugging.
pub open spec fn lexem_debug(l: LexemV) -> Seq<char> {
    match l {
        LexemV::Id(s) => "Id(\""@ + escaped(s) + "\")"@,
        LexemV::Equal => "Equal"@,
        LexemV::StringLiteral(s) => "StringLiteral(\""@ + escaped(s) + "\")"@,
        LexemV::SemiColon => "SemiColon"@,
        LexemV::Dot => "Dot"@,
        LexemV::IntLiteral(i) => "IntLiteral("@ + int_text(i) + ")"@,
        LexemV::OpenCurly => "OpenCurly"@,
        LexemV::CloseCurly => "CloseCurly"@,
        LexemV::OpenBracket => "OpenBracket"@,
        LexemV::CloseBracket => "CloseBracket"@,
        LexemV::EOF => "EOF"@,
    }
}

/// The syntax error raised at a lexem.
pub open spec fn syntax_error_v(file_path: Seq<char>, l: LocatedLexemV, message: Seq<char>) -> ProtoErrorV {
    ProtoErrorV::SyntaxError {
        file_path,
        line: l.range.start.line as nat,
        column: l.range.start.column as nat,
        message: message + ", but "@ + lexem_text(l.lexem) + " occurred"@,
    }
}

/// Lexems the parser can run on: the lexer's output always ends with `EOF`.
pub open spec fn well_ended(ls: Seq<LocatedLexemV>) -> bool {
    ls.len() > 0 && ls.last().lexem is EOF
}

pub open spec fn is_word(l: LexemV, w: Seq<char>) -> bool {
    l matches LexemV::Id(s) && s == w
}

/// Expecting a given lexem.
pub open spec fn p_expect(ls: Seq<LocatedLexemV>, fp: Seq<char>, ind: int, expected: LexemV) -> Result<
    int,
    ProtoErrorV,
> {
    if ls[ind].lexem == expected {
        Ok(ind + 1)
    } else {
        Err(syntax_error_v(fp, ls[ind], "Expected lexem: "@ + lexem_debug(expected)))
    }
}

/// An identifier.
pub open spec fn p_id(ls: Seq<LocatedLexemV>, fp: Seq<char>, ind: int) -> Result<
    (Seq<char>, int),
    ProtoErrorV,
> {
    match ls[ind].lexem {
        LexemV::Id(s) => Ok((s, ind + 1)),
        _ => Err(syntax_error_v(fp, ls[ind], "expected identifier"@)),
    }
}

/// A string literal.
pub open spec fn p_string(ls: Seq<LocatedLexemV>, fp: Seq<char>, ind: int) -> Result<
    (Seq<char>, int),
    ProtoErrorV,
> {
    match ls[ind].lexem {
        LexemV::StringLiteral(s) => Ok((s, ind + 1)),
        _ => Err(syntax_error_v(fp, ls[ind], "expected identifier"@)),
    }
}

/// An integer literal.
pub open spec fn p_int(ls: Seq<LocatedLexemV>, fp: Seq<char>, ind: int) -> Result<
    (int, int),
    ProtoErrorV,
> {
    match ls[ind].lexem {
        LexemV::IntLiteral(v) => Ok((v, ind + 1)),
        _ => Err(syntax_error_v(fp, ls[ind], "Expected int literal"@)),
    }
}

/// A dotted name `a.b.c`; `acc` holds the parts read so far.
pub open spec fn p_id_path(ls: Seq<LocatedLexemV>, fp: Seq<char>, ind: int, acc: Seq<Seq<char>>) -> Result<
    (Seq<Seq<char>>, int),
    ProtoErrorV,
>
    decreases ls.len() - ind,
{
    if ind < 0 || ind + 1 >= ls.len() {
        Err(syntax_error_v(fp, ls[ind], "Expected identifier"@))
    } else {
        match ls[ind].lexem {
            LexemV::Id(s) => if ls[ind + 1].lexem is Dot {
                p_id_path(ls, fp, ind + 2, acc.push(s))
            } else {
                Ok((acc.push(s), ind + 1))
            },
            _ => Err(syntax_error_v(fp, ls[ind], "Expected identifier"@)),
        }
    }
}

/// A field type: `repeated` prefixes, then a dotted name.
pub open spec fn p_field_type(ls: Seq<LocatedLexemV>, fp: Seq<char>, ind: int) -> Result<
    (TypeRefV, int),
    ProtoErrorV,
>
    decreases ls.len() - ind,
{
    if ind < 0 || ind + 1 >= ls.len() {
        Err(syntax_error_v(fp, ls[ind], "Expected lexem"@))
    } else {
        match ls[ind].lexem {
            LexemV::Id(s) => if s == "repeated"@ {
                match p_field_type(ls, fp, ind + 1) {
                    Ok((t, n)) => Ok((TypeRefV::Repeated(Box::new(t)), n)),
                    Err(e) => Err(e),
                }
            } else {
                match p_id_path(ls, fp, ind, Seq::empty()) {
                    Ok((ids, n)) => Ok((type_ref_of_ids(ids), n)),
                    Err(e) => Err(e),
                }
            },
            _ => Err(syntax_error_v(fp, ls[ind], "Expected lexem"@)),
        }
    }
}

/// Field attributes `key = "value"` up to the closing bracket.
pub open spec fn p_attributes(
    ls: Seq<LocatedLexemV>,
    fp: Seq<char>,
    ind: int,
    acc: Seq<(Seq<char>, Seq<char>)>,
) -> Result<(Seq<(Seq<char>, Seq<char>)>, int), ProtoErrorV>
    decreases ls.len() - ind,
{
    if ind < 0 || ind >= ls.len() {
        Err(syntax_error_v(fp, ls[ind], "expected identifier"@))
    } else if ls[ind].lexem is CloseBracket {
        Ok((acc, ind + 1))
    } else {
        match p_id(ls, fp, ind) {
            Err(e) => Err(e),
            Ok((key, i1)) => if i1 >= ls.len() {
                Err(syntax_error_v(fp, ls[i1], "expected identifier"@))
            } else {
                match p_expect(ls, fp, i1, LexemV::Equal) {
                    Err(e) => Err(e),
                    Ok(i2) => if i2 >= ls.len() {
                        Err(syntax_error_v(fp, ls[i2], "expected identifier"@))
                    } else {
                        match p_string(ls, fp, i2) {
                            Err(e) => Err(e),
                            Ok((value, i3)) => p_attributes(ls, fp, i3, acc.push((key, value))),
                        }
                    },
                }
            },
        }
    }
}

/// The optional bracketed attributes of a field.
pub open spec fn p_optional_attributes(ls: Seq<LocatedLexemV>, fp: Seq<char>, ind: int) -> Result<
    (Seq<(Seq<char>, Seq<char>)>, int),
    ProtoErrorV,
> {
    if ls[ind].lexem is OpenBracket {
        p_attributes(ls, fp, ind + 1, Seq::empty())
    } else {
        Ok((Seq::empty(), ind))
    }
}

/// A field declaration `type name = tag [attributes];`.
pub open spec fn p_field(ls: Seq<LocatedLexemV>, fp: Seq<char>, ind: int) -> Result<
    (FieldDeclarationV, int),
    ProtoErrorV,
> {
    match p_field_type(ls, fp, ind) {
        Err(e) => Err(e),
        Ok((t, i1)) => match p_id(ls, fp, i1) {
            Err(e) => Err(e),
            Ok((name, i2)) => match p_expect(ls, fp, i2, LexemV::Equal) {
                Err(e) => Err(e),
                Ok(i3) => match p_int(ls, fp, i3) {
                    Err(e) => Err(e),
                    Ok((tag, i4)) => match p_optional_attributes(ls, fp, i4) {
                        Err(e) => Err(e),
                        Ok((attributes, i5)) => match p_expect(ls, fp, i5, LexemV::SemiColon) {
                            Err(e) => Err(e),
                            Ok(i6) => Ok(
                                (
                                    FieldDeclarationV { name, field_type_ref: t, tag, attributes },
                                    i6,
                                ),
                            ),
                        },
                    },
                },
            },
        },
    }
}

} // verus!

verus! {

/// The entries of an enum up to its closing brace.
pub open spec fn p_enum_entries(ls: Seq<LocatedLexemV>, fp: Seq<char>, ind: int, acc: Seq<EnumEntryV>) -> Result<
    (Seq<EnumEntryV>, int),
    ProtoErrorV,
>
    decreases ls.len() - ind,
{
    if ind < 0 || ind >= ls.len() {
        Err(ProtoErrorV::NotImplemented("Cannot parse enum entry"@))
    } else {
        match ls[ind].lexem {
            LexemV::CloseCurly => Ok((acc, ind + 1)),
            LexemV::Id(_) => if ind + 3 >= ls.len() {
                Err(syntax_error_v(fp, ls[ind], "Not enough lexems for enum entry"@))
            } else {
                match (ls[ind].lexem, ls[ind + 1].lexem, ls[ind + 2].lexem, ls[ind + 3].lexem) {
                    (LexemV::Id(name), LexemV::Equal, LexemV::IntLiteral(value), LexemV::SemiColon) =>
                        p_enum_entries(ls, fp, ind + 4, acc.push(EnumEntryV { name, value })),
                    _ => Err(ProtoErrorV::NotImplemented("Cannot parse enum entry"@)),
                }
            },
            _ => Err(ProtoErrorV::NotImplemented("Cannot handle separator "@ + lexem_debug(ls[ind].lexem))),
        }
    }
}

/// An enum statement `enum Name { ... }`; its id is one more than `nid`.
pub open spec fn p_enum(ls: Seq<LocatedLexemV>, fp: Seq<char>, ind: int, nid: nat) -> Result<
    (EnumDeclarationV, int, nat),
    ProtoErrorV,
> {
    if ind + 3 >= ls.len() {
        Err(syntax_error_v(fp, ls[ind], "Not enough lexems for enum statement"@))
    } else {
        match ls[ind + 1].lexem {
            LexemV::Id(name) => if ls[ind + 2].lexem is OpenCurly {
                match p_enum_entries(ls, fp, ind + 3, Seq::empty()) {
                    Ok((entries, n)) => Ok(
                        (EnumDeclarationV { id: nid + 1, name, entries }, n, nid + 1),
                    ),
                    Err(e) => Err(e),
                }
            } else {
                Err(syntax_error_v(fp, ls[ind + 2], "Expected curly open"@))
            },
            _ => Err(syntax_error_v(fp, ls[ind + 1], "Expacted enum name"@)),
        }
    }
}

/// A message statement `message Name { entries }`; its id is one more than
/// `nid`, nested declarations get the following ones.
pub open spec fn p_message(ls: Seq<LocatedLexemV>, fp: Seq<char>, ind: int, nid: nat) -> Result<
    (MessageDeclarationV, int, nat),
    ProtoErrorV,
>
    decreases ls.len() - ind, 1int,
{
    if ind < 0 || ind >= ls.len() {
        Err(ProtoErrorV::NotImplemented("Cannot handle separator "@))
    } else {
        match p_expect(ls, fp, ind, LexemV::Id("message"@)) {
            Err(e) => Err(e),
            Ok(i1) => match p_id(ls, fp, i1) {
                Err(e) => Err(e),
                Ok((name, i2)) => match p_expect(ls, fp, i2, LexemV::OpenCurly) {
                    Err(e) => Err(e),
                    Ok(i3) => if i3 > ls.len() {
                        Err(ProtoErrorV::NotImplemented("Cannot handle separator "@))
                    } else {
                        match p_entries(ls, fp, i3, Seq::empty(), nid + 1) {
                            Err(e) => Err(e),
                            Ok((entries, n, nid2)) => Ok(
                                (MessageDeclarationV { id: nid + 1, name, entries }, n, nid2),
                            ),
                        }
                    },
                },
            },
        }
    }
}

/// The entries of a message up to its closing brace.
pub open spec fn p_entries(
    ls: Seq<LocatedLexemV>,
    fp: Seq<char>,
    ind: int,
    acc: Seq<MessageDeclarationEntryV>,
    nid: nat,
) -> Result<(Seq<MessageDeclarationEntryV>, int, nat), ProtoErrorV>
    decreases ls.len() - ind, 3int,
{
    if ind < 0 || ind >= ls.len() {
        Err(ProtoErrorV::NotImplemented("Cannot handle separator "@))
    } else {
        match ls[ind].lexem {
            LexemV::Id(_) => match p_entry(ls, fp, ind, nid) {
                Err(e) => Err(e),
                Ok((entry, n, nid2)) => if n <= ind || n > ls.len() {
                    Err(ProtoErrorV::NotImplemented("Cannot handle separator "@))
                } else {
                    p_entries(ls, fp, n, acc.push(entry), nid2)
                },
            },
            LexemV::CloseCurly => Ok((acc, ind + 1, nid)),
            _ => Err(ProtoErrorV::NotImplemented("Cannot handle separator "@ + lexem_debug(ls[ind].lexem))),
        }
    }
}

/// One entry of a message: a nested message or a field.
pub open spec fn p_entry(ls: Seq<LocatedLexemV>, fp: Seq<char>, ind: int, nid: nat) -> Result<
    (MessageDeclarationEntryV, int, nat),
    ProtoErrorV,
>
    decreases ls.len() - ind, 2int,
{
    if ind < 0 || ind >= ls.len() {
        Err(ProtoErrorV::NotImplemented("Cannot handle start message entry "@))
    } else if is_word(ls[ind].lexem, "message"@) {
        match p_message(ls, fp, ind, nid) {
            Err(e) => Err(e),
            Ok((m, n, nid2)) => Ok(
                (MessageDeclarationEntryV::Declaration(DeclarationV::Message(m)), n, nid2),
            ),
        }
    } else if is_word(ls[ind].lexem, "oneof"@) || !(ls[ind].lexem is Id) {
        Err(ProtoErrorV::NotImplemented("Cannot handle start message entry "@ + lexem_debug(ls[ind].lexem)))
    } else {
        match p_field(ls, fp, ind) {
            Err(e) => Err(e),
            Ok((f, n)) => Ok((MessageDeclarationEntryV::Field(f), n, nid)),
        }
    }
}

/// The parts of a `/`-separated path (always at least one, possibly empty).
pub open spec fn split_slash(s: Seq<char>) -> Seq<Seq<char>>
    decreases s.len(),
{
    if s.len() == 0 {
        seq![Seq::empty()]
    } else {
        let p = split_slash(s.drop_last());
        if s.last() == '/' {
            p.push(Seq::empty())
        } else {
            p.update(p.len() - 1, p.last().push(s.last()))
        }
    }
}

/// The import an `import "a/b/c.proto"` statement names: folders `a`, `b`
/// and file `c.proto`.
pub open spec fn import_path_of(s: Seq<char>) -> ImportPathV {
    let parts = split_slash(s);
    ImportPathV { file_name: parts.last(), packages: parts.drop_last() }
}

/// The package path of `package a.b.c;` from `ind` on.
pub open spec fn p_package_path(ls: Seq<LocatedLexemV>, fp: Seq<char>, ind: int, acc: Seq<Seq<char>>) -> Result<
    (Seq<Seq<char>>, int),
    ProtoErrorV,
>
    decreases ls.len() - ind,
{
    if ind < 0 || ind + 1 >= ls.len() {
        Err(syntax_error_v(fp, ls[ind], "Expected identifier"@))
    } else {
        match ls[ind].lexem {
            LexemV::Id(s) => match ls[ind + 1].lexem {
                LexemV::Dot => p_package_path(ls, fp, ind + 2, acc.push(s)),
                LexemV::SemiColon => Ok((acc.push(s), ind + 2)),
                _ => Err(syntax_error_v(fp, ls[ind + 1], "Expected dot or semicolon"@)),
            },
            _ => Err(syntax_error_v(fp, ls[ind], "Expected identifier"@)),
        }
    }
}

/// What the statements read so far have set.
pub struct ParseState {
    pub version: ProtoVersion,
    pub declarations: Seq<DeclarationV>,
    pub imports: Seq<ImportPathV>,
    pub path: Seq<Seq<char>>,
    pub nid: nat,
}

/// One top-level statement.
#[verifier::opaque]
pub open spec fn p_statement(ls: Seq<LocatedLexemV>, fp: Seq<char>, ind: int, st: ParseState) -> Result<
    (ParseState, int),
    ProtoErrorV,
> {
    let l = ls[ind].lexem;
    if is_word(l, "syntax"@) {
        if ind + 3 >= ls.len() {
            Err(syntax_error_v(fp, ls[ind], "Not enough lexems for syntax statement"@))
        } else {
            match (ls[ind + 1].lexem, ls[ind + 2].lexem, ls[ind + 3].lexem) {
                (LexemV::Equal, LexemV::StringLiteral(s), LexemV::SemiColon) => if s == "proto2"@ {
                    Ok((st, ind + 4))
                } else if s == "proto3"@ {
                    Ok((ParseState { version: ProtoVersion::Proto3, ..st }, ind + 4))
                } else {
                    Err(syntax_error_v(fp, ls[ind], "Invalid syntax statement"@))
                },
                _ => Err(syntax_error_v(fp, ls[ind], "Invalid syntax statement"@)),
            }
        }
    } else if is_word(l, "message"@) {
        match p_message(ls, fp, ind, st.nid) {
            Err(e) => Err(e),
            Ok((m, n, nid2)) => Ok(
                (
                    ParseState {
                        declarations: st.declarations.push(DeclarationV::Message(m)),
                        nid: nid2,
                        ..st
                    },
                    n,
                ),
            ),
        }
    } else if is_word(l, "import"@) {
        if ind + 2 >= ls.len() {
            Err(syntax_error_v(fp, ls[ind], "Not enough lexems for import statement"@))
        } else {
            match (ls[ind + 1].lexem, ls[ind + 2].lexem) {
                (LexemV::StringLiteral(s), LexemV::SemiColon) => Ok(
                    (ParseState { imports: st.imports.push(import_path_of(s)), ..st }, ind + 3),
                ),
                _ => Err(syntax_error_v(fp, ls[ind], "Invalid import statement"@)),
            }
        }
    } else if is_word(l, "package"@) {
        if ind + 2 >= ls.len() {
            Err(syntax_error_v(fp, ls[ind], "Not enough lexems for package statement"@))
        } else {
            match p_package_path(ls, fp, ind + 1, Seq::empty()) {
                Err(e) => Err(e),
                Ok((path, n)) => Ok((ParseState { path, ..st }, n)),
            }
        }
    } else if is_word(l, "enum"@) {
        match p_enum(ls, fp, ind, st.nid) {
            Err(e) => Err(e),
            Ok((e, n, nid2)) => Ok(
                (
                    ParseState {
                        declarations: st.declarations.push(DeclarationV::Enum(e)),
                        nid: nid2,
                        ..st
                    },
                    n,
                ),
            ),
        }
    } else {
        match l {
            LexemV::Id(id) => Err(syntax_error_v(fp, ls[ind], "Unexpected identifier: "@ + id)),
            _ => Err(syntax_error_v(fp, ls[ind], "Unexpected lexem "@ + lexem_debug(l))),
        }
    }
}

/// The statements from `ind` up to `EOF`.
pub open spec fn p_statements(ls: Seq<LocatedLexemV>, fp: Seq<char>, ind: int, st: ParseState) -> Result<
    ParseState,
    ProtoErrorV,
>
    decreases ls.len() - ind,
{
    if ind < 0 || ind >= ls.len() || ls[ind].lexem is EOF {
        Ok(st)
    } else {
        match p_statement(ls, fp, ind, st) {
            Err(e) => Err(e),
            Ok((st2, n)) => if n <= ind || n > ls.len() {
                Ok(st2)
            } else {
                p_statements(ls, fp, n, st2)
            },
        }
    }
}

/// The file a lexem list describes, named `name`, with declaration ids
/// following `nid`; and the last id handed out.
pub open spec fn parse_file(ls: Seq<LocatedLexemV>, fp: Seq<char>, name: Seq<char>, nid: nat) -> Result<
    (ProtoFileV, nat),
    ProtoErrorV,
> {
    let start = ParseState {
        version: ProtoVersion::Proto2,
        declarations: Seq::empty(),
        imports: Seq::empty(),
        path: Seq::empty(),
        nid,
    };
    match p_statements(ls, fp, 0, start) {
        Err(e) => Err(e),
        Ok(st) => Ok(
            (
                ProtoFileV {
                    version: st.version,
                    declarations: st.declarations,
                    imports: st.imports,
                    path: st.path,
                    name,
                },
                st.nid,
            ),
        ),
    }
}

} // verus!

verus! {

/// Appends a character as it appears inside a quoted debug rendering.
pub fn push_escaped(s: &mut String, c: char)
    ensures
        final(s)@ == old(s)@ + escape_char(c),
{
    if c == '"' {
        s.append("\\\"");
    } else if c == '\\' {
        s.append("\\\\");
    } else if c == '\n' {
        s.append("\\n");
    } else if c == '\r' {
        s.append("\\r");
    } else if c == '\t' {
        s.append("\\t");
    } else if c == '\0' {
        s.append("\\0");
    } else {
        push_char(s, c);
    }
}

/// Appends a text with the debug escapes applied.
pub fn push_all_escaped(s: &mut String, t: &String)
    ensures
        final(s)@ == old(s)@ + escaped(t@),
{
    let ghost start = s@;
    let ghost tv = t@;
    broadcast use vstd::string::axiom_spec_iter;
    for c in it: t.chars()
        invariant
            tv == t@,
            it.seq() == tv,
            s@ == start + escaped(tv.take(it.index() as int)),
    {
        proof {
            assert(tv.take(it.index() + 1).drop_last() =~= tv.take(it.index() as int));
        }
        push_escaped(s, c);
        proof {
            assert(s@ =~= start + escaped(tv.take(it.index() + 1)));
        }
    }
    proof {
        assert(tv.take(tv.len() as int) =~= tv);
    }
}

/// How a lexem is written back in messages (its `Display`).
pub fn lexem_display(l: &Lexem) -> (r: String)
    ensures
        r@ == lexem_text(l@),
{
    let mut s = String::new();
    match l {
        Lexem::Id(id) => s.append(id.as_str()),
        Lexem::Equal => s.append("="),
        Lexem::StringLiteral(t) => {
            s.append("\"");
            s.append(t.as_str());
            s.append("\"");
        },
        Lexem::SemiColon => s.append(";"),
        Lexem::Dot => s.append("."),
        Lexem::IntLiteral(i) => push_int(&mut s, *i),
        Lexem::OpenCurly => s.append("{"),
        Lexem::CloseCurly => s.append("}"),
        Lexem::OpenBracket => s.append("["),
        Lexem::CloseBracket => s.append("]"),
        Lexem::EOF => s.append("EOF"),
    }
    assert(s@ =~= lexem_text(l@));
    s
}

/// How a lexem is shown for debugging (its `Debug`).
pub fn lexem_debug_text(l: &Lexem) -> (r: String)
    ensures
        r@ == lexem_debug(l@),
{
    let mut s = String::new();
    match l {
        Lexem::Id(id) => {
            s.append("Id(\"");
            push_all_escaped(&mut s, id);
            s.append("\")");
        },
        Lexem::Equal => s.append("Equal"),
        Lexem::StringLiteral(t) => {
            s.append("StringLiteral(\"");
            push_all_escaped(&mut s, t);
            s.append("\")");
        },
        Lexem::SemiColon => s.append("SemiColon"),
        Lexem::Dot => s.append("Dot"),
        Lexem::IntLiteral(i) => {
            s.append("IntLiteral(");
            push_int(&mut s, *i);
            s.append(")");
        },
        Lexem::OpenCurly => s.append("OpenCurly"),
        Lexem::CloseCurly => s.append("CloseCurly"),
        Lexem::OpenBracket => s.append("OpenBracket"),
        Lexem::CloseBracket => s.append("CloseBracket"),
        Lexem::EOF => s.append("EOF"),
    }
    assert(s@ =~= lexem_debug(l@));
    s
}

/// The syntax error raised at a lexem: the message, the lexem met, and where.
pub fn syntax_error(file_path: &str, message: &str, lexem: &LocatedLexem) -> (r: ProtoError)
    ensures
        r@ == syntax_error_v(file_path@, lexem@, message@),
{
    let mut m = message.to_owned();
    m.append(", but ");
    let shown = lexem_display(&lexem.lexem);
    m.append(shown.as_str());
    m.append(" occurred");
    assert(m@ =~= message@ + ", but "@ + lexem_text(lexem@.lexem) + " occurred"@);
    ProtoError::SyntaxError {
        file_path: file_path.to_owned(),
        line: lexem.range.start.line,
        column: lexem.range.start.column,
        message: m,
    }
}

/// Fails with `message` at `located_lexems[ind]` unless `len` lexems remain from `ind` on.
pub fn assert_enough_length(
    file_path: &str,
    located_lexems: &Vec<LocatedLexem>,
    ind: usize,
    len: usize,
    message: &str,
) -> (r: Result<(), ProtoError>)
    requires
        ind < located_lexems.len(),
        len >= 1,
    ensures
        match r {
            Ok(()) => ind + len - 1 < located_lexems.len(),
            Err(e) => ind + len - 1 >= located_lexems.len() && e@ == syntax_error_v(
                file_path@,
                located_lexems@[ind as int]@,
                message@,
            ),
        },
{
    if len - 1 >= located_lexems.len() - ind {
        return Err(syntax_error(file_path, message, &located_lexems[ind]));
    }
    Ok(())
}

/// Whether a lexem is the identifier `w`.
fn lexem_is_word(l: &Lexem, w: &str) -> (r: bool)
    ensures
        r == is_word(l@, w@),
{
    match l {
        Lexem::Id(s) => *s == w.to_owned(),
        _ => false,
    }
}

proof fn lemma_not_last(ls: Seq<LocatedLexemV>, k: int)
    requires
        well_ended(ls),
        0 <= k < ls.len(),
        !(ls[k].lexem is EOF),
    ensures
        k + 1 < ls.len(),
{
}

} // verus!

verus! {

fn lexem_eq(a: &Lexem, b: &Lexem) -> (r: bool)
    ensures
        r == (a@ == b@),
{
    match (a, b) {
        (Lexem::Id(x), Lexem::Id(y)) => *x == *y,
        (Lexem::Equal, Lexem::Equal) => true,
        (Lexem::StringLiteral(x), Lexem::StringLiteral(y)) => *x == *y,
        (Lexem::SemiColon, Lexem::SemiColon) => true,
        (Lexem::Dot, Lexem::Dot) => true,
        (Lexem::IntLiteral(x), Lexem::IntLiteral(y)) => *x == *y,
        (Lexem::OpenCurly, Lexem::OpenCurly) => true,
        (Lexem::CloseCurly, Lexem::CloseCurly) => true,
        (Lexem::OpenBracket, Lexem::OpenBracket) => true,
        (Lexem::CloseBracket, Lexem::CloseBracket) => true,
        (Lexem::EOF, Lexem::EOF) => true,
        _ => false,
    }
}

/// Expects the lexem `expected` at `ind`.
fn parse_expect(ls: &Vec<LocatedLexem>, fp: &str, ind: usize, expected: &Lexem) -> (r: Result<
    usize,
    ProtoError,
>)
    requires
        well_ended(lexem_views(ls@)),
        ind < ls.len(),
        !(expected@ is EOF),
    ensures
        match r {
            Ok(n) => p_expect(lexem_views(ls@), fp@, ind as int, expected@) == Ok::<int, ProtoErrorV>(
                n as int,
            ) && n < ls.len() && n == ind + 1,
            Err(e) => p_expect(lexem_views(ls@), fp@, ind as int, expected@) == Err::<int, ProtoErrorV>(
                e@,
            ),
        },
{
    let ghost lv = lexem_views(ls@);
    if lexem_eq(&ls[ind].lexem, expected) {
        proof {
            lemma_not_last(lv, ind as int);
        }
        Ok(ind + 1)
    } else {
        let mut message = String::new();
        message.append("Expected lexem: ");
        let shown = lexem_debug_text(expected);
        message.append(shown.as_str());
        Err(syntax_error(fp, message.as_str(), &ls[ind]))
    }
}

/// Reads an identifier at `ind`.
fn parse_id(ls: &Vec<LocatedLexem>, fp: &str, ind: usize) -> (r: Result<(String, usize), ProtoError>)
    requires
        well_ended(lexem_views(ls@)),
        ind < ls.len(),
    ensures
        match r {
            Ok((s, n)) => p_id(lexem_views(ls@), fp@, ind as int) == Ok::<(Seq<char>, int), ProtoErrorV>(
                (s@, n as int),
            ) && n < ls.len() && n == ind + 1,
            Err(e) => p_id(lexem_views(ls@), fp@, ind as int) == Err::<(Seq<char>, int), ProtoErrorV>(
                e@,
            ),
        },
{
    let ghost lv = lexem_views(ls@);
    match &ls[ind].lexem {
        Lexem::Id(found_id) => {
            proof {
                lemma_not_last(lv, ind as int);
            }
            Ok((found_id.clone(), ind + 1))
        },
        _ => Err(syntax_error(fp, "expected identifier", &ls[ind])),
    }
}

/// Reads a string literal at `ind`.
fn parse_string_literal(ls: &Vec<LocatedLexem>, fp: &str, ind: usize) -> (r: Result<
    (String, usize),
    ProtoError,
>)
    requires
        well_ended(lexem_views(ls@)),
        ind < ls.len(),
    ensures
        match r {
            Ok((s, n)) => p_string(lexem_views(ls@), fp@, ind as int) == Ok::<
                (Seq<char>, int),
                ProtoErrorV,
            >((s@, n as int)) && n < ls.len() && n == ind + 1,
            Err(e) => p_string(lexem_views(ls@), fp@, ind as int) == Err::<
                (Seq<char>, int),
                ProtoErrorV,
            >(e@),
        },
{
    let ghost lv = lexem_views(ls@);
    match &ls[ind].lexem {
        Lexem::StringLiteral(found) => {
            proof {
                lemma_not_last(lv, ind as int);
            }
            Ok((found.clone(), ind + 1))
        },
        _ => Err(syntax_error(fp, "expected identifier", &ls[ind])),
    }
}

/// Reads an integer literal at `ind`.
fn parse_int64(ls: &Vec<LocatedLexem>, fp: &str, ind: usize) -> (r: Result<(i64, usize), ProtoError>)
    requires
        well_ended(lexem_views(ls@)),
        ind < ls.len(),
    ensures
        match r {
            Ok((v, n)) => p_int(lexem_views(ls@), fp@, ind as int) == Ok::<(int, int), ProtoErrorV>(
                (v as int, n as int),
            ) && n < ls.len() && n == ind + 1,
            Err(e) => p_int(lexem_views(ls@), fp@, ind as int) == Err::<(int, int), ProtoErrorV>(e@),
        },
{
    let ghost lv = lexem_views(ls@);
    match &ls[ind].lexem {
        Lexem::IntLiteral(v) => {
            proof {
                lemma_not_last(lv, ind as int);
            }
            Ok((*v, ind + 1))
        },
        _ => Err(syntax_error(fp, "Expected int literal", &ls[ind])),
    }
}

/// Reads a dotted name at `ind`.
fn parse_id_path(ls: &Vec<LocatedLexem>, fp: &str, ind: usize) -> (r: Result<
    (Vec<String>, usize),
    ProtoError,
>)
    requires
        well_ended(lexem_views(ls@)),
        ind < ls.len(),
    ensures
        match r {
            Ok((ids, n)) => p_id_path(lexem_views(ls@), fp@, ind as int, Seq::empty()) == Ok::<
                (Seq<Seq<char>>, int),
                ProtoErrorV,
            >((views(ids@), n as int)) && ind < n < ls.len() && ids.len() > 0,
            Err(e) => p_id_path(lexem_views(ls@), fp@, ind as int, Seq::empty()) == Err::<
                (Seq<Seq<char>>, int),
                ProtoErrorV,
            >(e@),
        },
{
    let ghost lv = lexem_views(ls@);
    let mut id_path: Vec<String> = Vec::new();
    let mut k = ind;
    assert(views(id_path@) =~= Seq::<Seq<char>>::empty());
    loop
        invariant
            lv == lexem_views(ls@),
            well_ended(lv),
            ind <= k < ls.len(),
            k == ind ==> id_path.len() == 0,
            p_id_path(lv, fp@, ind as int, Seq::empty()) == p_id_path(lv, fp@, k as int, views(id_path@)),
        decreases ls.len() - k,
    {
        let ghost acc = views(id_path@);
        match &ls[k].lexem {
            Lexem::Id(id) => {
                proof {
                    lemma_not_last(lv, k as int);
                }
                id_path.push(id.clone());
                proof {
                    assert(views(id_path@) =~= acc.push(id@));
                }
                match &ls[k + 1].lexem {
                    Lexem::Dot => {
                        proof {
                            lemma_not_last(lv, k + 1);
                        }
                        k = k + 2;
                    },
                    _ => {
                        return Ok((id_path, k + 1));
                    },
                }
            },
            _ => {
                return Err(syntax_error(fp, "Expected identifier", &ls[k]));
            },
        }
    }
}

/// Reads a field type at `ind`.
fn parse_field_type(ls: &Vec<LocatedLexem>, fp: &str, ind: usize) -> (r: Result<
    (FieldTypeReference, usize),
    ProtoError,
>)
    requires
        well_ended(lexem_views(ls@)),
        ind < ls.len(),
    ensures
        match r {
            Ok((t, n)) => p_field_type(lexem_views(ls@), fp@, ind as int) == Ok::<
                (TypeRefV, int),
                ProtoErrorV,
            >((t@, n as int)) && ind < n < ls.len(),
            Err(e) => p_field_type(lexem_views(ls@), fp@, ind as int) == Err::<
                (TypeRefV, int),
                ProtoErrorV,
            >(e@),
        },
    decreases ls.len() - ind,
{
    let ghost lv = lexem_views(ls@);
    match &ls[ind].lexem {
        Lexem::Id(id) => {
            proof {
                lemma_not_last(lv, ind as int);
            }
            if *id == "repeated".to_owned() {
                match parse_field_type(ls, fp, ind + 1) {
                    Ok((t, n)) => Ok((FieldTypeReference::repeated(t), n)),
                    Err(e) => Err(e),
                }
            } else {
                match parse_id_path(ls, fp, ind) {
                    Ok((ids, n)) => Ok((FieldTypeReference::from_id_path(ids), n)),
                    Err(e) => Err(e),
                }
            }
        },
        _ => {
            proof {
                if ind + 1 >= ls.len() {
                    assert(lv[ind as int].lexem is EOF);
                }
            }
            Err(syntax_error(fp, "Expected lexem", &ls[ind]))
        },
    }
}

/// Reads bracketed field attributes after the opening bracket.
fn parse_field_attributes(ls: &Vec<LocatedLexem>, fp: &str, ind: usize) -> (r: Result<
    (Vec<(String, String)>, usize),
    ProtoError,
>)
    requires
        well_ended(lexem_views(ls@)),
        ind < ls.len(),
    ensures
        match r {
            Ok((a, n)) => p_attributes(lexem_views(ls@), fp@, ind as int, Seq::empty()) == Ok::<
                (Seq<(Seq<char>, Seq<char>)>, int),
                ProtoErrorV,
            >((crate::package::attributes_view(a@), n as int)) && ind < n < ls.len(),
            Err(e) => p_attributes(lexem_views(ls@), fp@, ind as int, Seq::empty()) == Err::<
                (Seq<(Seq<char>, Seq<char>)>, int),
                ProtoErrorV,
            >(e@),
        },
{
    let ghost lv = lexem_views(ls@);
    let mut attributes: Vec<(String, String)> = Vec::new();
    let mut k = ind;
    assert(crate::package::attributes_view(attributes@) =~= Seq::empty());
    loop
        invariant
            lv == lexem_views(ls@),
            well_ended(lv),
            ind <= k < ls.len(),
            p_attributes(lv, fp@, ind as int, Seq::empty()) == p_attributes(
                lv,
                fp@,
                k as int,
                crate::package::attributes_view(attributes@),
            ),
        decreases ls.len() - k,
    {
        let ghost acc = crate::package::attributes_view(attributes@);
        if let Lexem::CloseBracket = &ls[k].lexem {
            proof {
                lemma_not_last(lv, k as int);
            }
            return Ok((attributes, k + 1));
        }
        let (key, i1) = match parse_id(ls, fp, k) {
            Ok(p) => p,
            Err(e) => {
                return Err(e);
            },
        };
        let i2 = match parse_expect(ls, fp, i1, &Lexem::Equal) {
            Ok(n) => n,
            Err(e) => {
                return Err(e);
            },
        };
        let (value, i3) = match parse_string_literal(ls, fp, i2) {
            Ok(p) => p,
            Err(e) => {
                return Err(e);
            },
        };
        let ghost kv = key@;
        let ghost vv = value@;
        attributes.push((key, value));
        proof {
            assert(crate::package::attributes_view(attributes@) =~= acc.push((kv, vv)));
        }
        k = i3;
    }
}

/// Reads the optional attributes of a field at `ind`.
fn parse_optional_attributes(ls: &Vec<LocatedLexem>, fp: &str, ind: usize) -> (r: Result<
    (Vec<(String, String)>, usize),
    ProtoError,
>)
    requires
        well_ended(lexem_views(ls@)),
        ind < ls.len(),
    ensures
        match r {
            Ok((a, n)) => p_optional_attributes(lexem_views(ls@), fp@, ind as int) == Ok::<
                (Seq<(Seq<char>, Seq<char>)>, int),
                ProtoErrorV,
            >((crate::package::attributes_view(a@), n as int)) && ind <= n < ls.len(),
            Err(e) => p_optional_attributes(lexem_views(ls@), fp@, ind as int) == Err::<
                (Seq<(Seq<char>, Seq<char>)>, int),
                ProtoErrorV,
            >(e@),
        },
{
    let ghost lv = lexem_views(ls@);
    if let Lexem::OpenBracket = &ls[ind].lexem {
        proof {
            lemma_not_last(lv, ind as int);
        }
        parse_field_attributes(ls, fp, ind + 1)
    } else {
        let empty: Vec<(String, String)> = Vec::new();
        proof {
            assert(crate::package::attributes_view(empty@) =~= Seq::empty());
        }
        Ok((empty, ind))
    }
}

/// Reads a field declaration at `ind`.
fn parse_field_declaration(ls: &Vec<LocatedLexem>, fp: &str, ind: usize) -> (r: Result<
    (FieldDeclaration, usize),
    ProtoError,
>)
    requires
        well_ended(lexem_views(ls@)),
        ind < ls.len(),
    ensures
        match r {
            Ok((f, n)) => p_field(lexem_views(ls@), fp@, ind as int) == Ok::<
                (FieldDeclarationV, int),
                ProtoErrorV,
            >((f@, n as int)) && ind < n < ls.len(),
            Err(e) => p_field(lexem_views(ls@), fp@, ind as int) == Err::<
                (FieldDeclarationV, int),
                ProtoErrorV,
            >(e@),
        },
{
    let (field_type, i1) = match parse_field_type(ls, fp, ind) {
        Ok(p) => p,
        Err(e) => {
            return Err(e);
        },
    };
    let (name, i2) = match parse_id(ls, fp, i1) {
        Ok(p) => p,
        Err(e) => {
            return Err(e);
        },
    };
    let i3 = match parse_expect(ls, fp, i2, &Lexem::Equal) {
        Ok(n) => n,
        Err(e) => {
            return Err(e);
        },
    };
    let (tag, i4) = match parse_int64(ls, fp, i3) {
        Ok(p) => p,
        Err(e) => {
            return Err(e);
        },
    };
    let (attributes, i5) = match parse_optional_attributes(ls, fp, i4) {
        Ok(p) => p,
        Err(e) => {
            return Err(e);
        },
    };
    let i6 = match parse_expect(ls, fp, i5, &Lexem::SemiColon) {
        Ok(n) => n,
        Err(e) => {
            return Err(e);
        },
    };
    Ok((FieldDeclaration { name, field_type_ref: field_type, tag, attributes }, i6))
}

} // verus!

verus! {

/// Reads the entries of an enum after its opening brace.
fn parse_enum_entries(ls: &Vec<LocatedLexem>, fp: &str, ind: usize) -> (r: Result<
    (Vec<EnumEntry>, usize),
    ProtoError,
>)
    requires
        well_ended(lexem_views(ls@)),
        ind < ls.len(),
    ensures
        match r {
            Ok((entries, n)) => p_enum_entries(lexem_views(ls@), fp@, ind as int, Seq::empty()) == Ok::<
                (Seq<EnumEntryV>, int),
                ProtoErrorV,
            >((entries@.map_values(|e: EnumEntry| e@), n as int)) && ind < n < ls.len(),
            Err(e) => p_enum_entries(lexem_views(ls@), fp@, ind as int, Seq::empty()) == Err::<
                (Seq<EnumEntryV>, int),
                ProtoErrorV,
            >(e@),
        },
{
    let ghost lv = lexem_views(ls@);
    let mut entries: Vec<EnumEntry> = Vec::new();
    let mut k = ind;
    assert(entries@.map_values(|e: EnumEntry| e@) =~= Seq::<EnumEntryV>::empty());
    loop
        invariant
            lv == lexem_views(ls@),
            well_ended(lv),
            ind <= k < ls.len(),
            p_enum_entries(lv, fp@, ind as int, Seq::empty()) == p_enum_entries(
                lv,
                fp@,
                k as int,
                entries@.map_values(|e: EnumEntry| e@),
            ),
        decreases ls.len() - k,
    {
        let ghost acc = entries@.map_values(|e: EnumEntry| e@);
        match &ls[k].lexem {
            Lexem::CloseCurly => {
                proof {
                    lemma_not_last(lv, k as int);
                }
                return Ok((entries, k + 1));
            },
            Lexem::Id(_) => {
                if 3 >= ls.len() - k {
                    return Err(syntax_error(fp, "Not enough lexems for enum entry", &ls[k]));
                }
                match (&ls[k].lexem, &ls[k + 1].lexem, &ls[k + 2].lexem, &ls[k + 3].lexem) {
                    (Lexem::Id(id), Lexem::Equal, Lexem::IntLiteral(value), Lexem::SemiColon) => {
                        proof {
                            lemma_not_last(lv, k + 3);
                        }
                        let entry = EnumEntry { name: id.clone(), value: *value };
                        entries.push(entry);
                        proof {
                            assert(entries@.map_values(|e: EnumEntry| e@) =~= acc.push(entry@));
                        }
                        k = k + 4;
                    },
                    _ => {
                        return Err(ProtoError::NotImplemented("Cannot parse enum entry".to_owned()));
                    },
                }
            },
            other => {
                let mut message = "Cannot handle separator ".to_owned();
                let shown = lexem_debug_text(other);
                message.append(shown.as_str());
                return Err(ProtoError::NotImplemented(message));
            },
        }
    }
}

/// Reads an enum statement at `ind`; the enum gets the generator's next id.
fn parse_enum_statement(ls: &Vec<LocatedLexem>, fp: &str, ind: usize, ids: &mut IdGenerator) -> (r:
    Result<(EnumDeclaration, usize), ProtoError>)
    requires
        well_ended(lexem_views(ls@)),
        ind < ls.len(),
        old(ids)@ + ls.len() - ind < usize::MAX,
    ensures
        match r {
            Ok((d, n)) => p_enum(lexem_views(ls@), fp@, ind as int, old(ids)@) == Ok::<
                (EnumDeclarationV, int, nat),
                ProtoErrorV,
            >((d@, n as int, final(ids)@)) && ind < n < ls.len() && final(ids)@ <= old(ids)@ + (n
                - ind),
            Err(e) => p_enum(lexem_views(ls@), fp@, ind as int, old(ids)@) == Err::<
                (EnumDeclarationV, int, nat),
                ProtoErrorV,
            >(e@),
        },
{
    if 3 >= ls.len() - ind {
        return Err(syntax_error(fp, "Not enough lexems for enum statement", &ls[ind]));
    }
    let name = match &ls[ind + 1].lexem {
        Lexem::Id(id) => id.clone(),
        _ => {
            return Err(syntax_error(fp, "Expacted enum name", &ls[ind + 1]));
        },
    };
    match &ls[ind + 2].lexem {
        Lexem::OpenCurly => {},
        _ => {
            return Err(syntax_error(fp, "Expected curly open", &ls[ind + 2]));
        },
    }
    let (entries, n) = match parse_enum_entries(ls, fp, ind + 3) {
        Ok(p) => p,
        Err(e) => {
            return Err(e);
        },
    };
    let id = ids.next_id();
    Ok((EnumDeclaration { id, name, entries }, n))
}

/// Reads a message statement at `ind`; the message gets the generator's next
/// id, nested declarations the following ones.
fn parse_message_statement(ls: &Vec<LocatedLexem>, fp: &str, ind: usize, ids: &mut IdGenerator) -> (r:
    Result<(MessageDeclaration, usize), ProtoError>)
    requires
        well_ended(lexem_views(ls@)),
        ind < ls.len(),
        old(ids)@ + ls.len() - ind < usize::MAX,
    ensures
        match r {
            Ok((m, n)) => p_message(lexem_views(ls@), fp@, ind as int, old(ids)@) == Ok::<
                (MessageDeclarationV, int, nat),
                ProtoErrorV,
            >((m@, n as int, final(ids)@)) && ind < n < ls.len() && final(ids)@ <= old(ids)@ + (n
                - ind),
            Err(e) => p_message(lexem_views(ls@), fp@, ind as int, old(ids)@) == Err::<
                (MessageDeclarationV, int, nat),
                ProtoErrorV,
            >(e@),
        },
    decreases ls.len() - ind, 1int,
{
    let i1 = match parse_expect(ls, fp, ind, &Lexem::Id("message".to_owned())) {
        Ok(n) => n,
        Err(e) => {
            return Err(e);
        },
    };
    let (name, i2) = match parse_id(ls, fp, i1) {
        Ok(p) => p,
        Err(e) => {
            return Err(e);
        },
    };
    let i3 = match parse_expect(ls, fp, i2, &Lexem::OpenCurly) {
        Ok(n) => n,
        Err(e) => {
            return Err(e);
        },
    };
    let id = ids.next_id();
    let (entries, n) = match parse_message_entries(ls, fp, i3, ids) {
        Ok(p) => p,
        Err(e) => {
            return Err(e);
        },
    };
    Ok((MessageDeclaration { id, name, entries }, n))
}

/// Reads the entries of a message after its opening brace.
fn parse_message_entries(ls: &Vec<LocatedLexem>, fp: &str, ind: usize, ids: &mut IdGenerator) -> (r:
    Result<(Vec<MessageDeclarationEntry>, usize), ProtoError>)
    requires
        well_ended(lexem_views(ls@)),
        ind < ls.len(),
        old(ids)@ + ls.len() - ind < usize::MAX,
    ensures
        match r {
            Ok((entries, n)) => p_entries(
                lexem_views(ls@),
                fp@,
                ind as int,
                Seq::empty(),
                old(ids)@,
            ) == Ok::<(Seq<MessageDeclarationEntryV>, int, nat), ProtoErrorV>(
                (crate::package::entries_view(entries@), n as int, final(ids)@),
            ) && ind < n < ls.len() && final(ids)@ <= old(ids)@ + (n - ind),
            Err(e) => p_entries(lexem_views(ls@), fp@, ind as int, Seq::empty(), old(ids)@) == Err::<
                (Seq<MessageDeclarationEntryV>, int, nat),
                ProtoErrorV,
            >(e@),
        },
    decreases ls.len() - ind, 3int,
{
    let ghost lv = lexem_views(ls@);
    let ghost start_id = ids@;
    let mut entries: Vec<MessageDeclarationEntry> = Vec::new();
    let mut k = ind;
    assert(crate::package::entries_view(entries@) =~= Seq::<MessageDeclarationEntryV>::empty());
    loop
        invariant
            lv == lexem_views(ls@),
            well_ended(lv),
            ind <= k < ls.len(),
            start_id == old(ids)@,
            ids@ <= start_id + (k - ind),
            start_id + ls.len() - ind < usize::MAX,
            p_entries(lv, fp@, ind as int, Seq::empty(), start_id) == p_entries(
                lv,
                fp@,
                k as int,
                crate::package::entries_view(entries@),
                ids@,
            ),
        decreases ls.len() - k,
    {
        let ghost acc = crate::package::entries_view(entries@);
        let ghost nid = ids@;
        match &ls[k].lexem {
            Lexem::Id(_) => {
                let (entry, n) = match parse_message_entry(ls, fp, k, ids) {
                    Ok(p) => p,
                    Err(e) => {
                        return Err(e);
                    },
                };
                proof {
                    crate::package::lemma_entries_view_push(entries@, entry);
                }
                entries.push(entry);
                k = n;
            },
            Lexem::CloseCurly => {
                proof {
                    lemma_not_last(lv, k as int);
                }
                return Ok((entries, k + 1));
            },
            other => {
                let mut message = "Cannot handle separator ".to_owned();
                let shown = lexem_debug_text(other);
                message.append(shown.as_str());
                return Err(ProtoError::NotImplemented(message));
            },
        }
    }
}

/// Reads one entry of a message at `ind`.
fn parse_message_entry(ls: &Vec<LocatedLexem>, fp: &str, ind: usize, ids: &mut IdGenerator) -> (r:
    Result<(MessageDeclarationEntry, usize), ProtoError>)
    requires
        well_ended(lexem_views(ls@)),
        ind < ls.len(),
        old(ids)@ + ls.len() - ind < usize::MAX,
    ensures
        match r {
            Ok((e, n)) => p_entry(lexem_views(ls@), fp@, ind as int, old(ids)@) == Ok::<
                (MessageDeclarationEntryV, int, nat),
                ProtoErrorV,
            >((e@, n as int, final(ids)@)) && ind < n < ls.len() && final(ids)@ <= old(ids)@ + (n
                - ind),
            Err(e) => p_entry(lexem_views(ls@), fp@, ind as int, old(ids)@) == Err::<
                (MessageDeclarationEntryV, int, nat),
                ProtoErrorV,
            >(e@),
        },
    decreases ls.len() - ind, 2int,
{
    let start = &ls[ind].lexem;
    if lexem_is_word(start, "message") {
        match parse_message_statement(ls, fp, ind, ids) {
            Ok((m, n)) => Ok((MessageDeclarationEntry::Declaration(Declaration::Message(m)), n)),
            Err(e) => Err(e),
        }
    } else if lexem_is_word(start, "oneof") || !(match start {
        Lexem::Id(_) => true,
        _ => false,
    }) {
        let mut message = "Cannot handle start message entry ".to_owned();
        let shown = lexem_debug_text(start);
        message.append(shown.as_str());
        Err(ProtoError::NotImplemented(message))
    } else {
        match parse_field_declaration(ls, fp, ind) {
            Ok((f, n)) => Ok((MessageDeclarationEntry::Field(f), n)),
            Err(e) => Err(e),
        }
    }
}

} // verus!

verus! {

/// The import a path text names: its `/`-separated folders and file name.
pub fn import_path_from(s: &String) -> (r: ImportPath)
    ensures
        r@ == import_path_of(s@),
{
    let ghost sv = s@;
    let mut parts: Vec<String> = Vec::new();
    let mut current = String::new();
    broadcast use vstd::string::axiom_spec_iter;
    for c in it: s.chars()
        invariant
            sv == s@,
            it.seq() == sv,
            views(parts@).push(current@) == split_slash(sv.take(it.index() as int)),
    {
        let ghost before = views(parts@);
        let ghost cur = current@;
        proof {
            assert(sv.take(it.index() + 1).drop_last() =~= sv.take(it.index() as int));
        }
        if c == '/' {
            parts.push(current);
            current = String::new();
            proof {
                assert(views(parts@) =~= before.push(cur));
                assert(views(parts@).push(current@) =~= before.push(cur).push(Seq::empty()));
            }
        } else {
            push_char(&mut current, c);
            proof {
                assert(views(parts@).push(current@) =~= before.push(cur).update(
                    before.len() as int,
                    cur.push(c),
                ));
            }
        }
    }
    proof {
        assert(sv.take(sv.len() as int) =~= sv);
        let all = views(parts@).push(current@);
        assert(all.drop_last() =~= views(parts@));
    }
    ImportPath { file_name: current, packages: parts }
}

/// Reads the path of a `package` statement from `ind` on.
fn parse_package_path(ls: &Vec<LocatedLexem>, fp: &str, ind: usize) -> (r: Result<
    (Vec<String>, usize),
    ProtoError,
>)
    requires
        well_ended(lexem_views(ls@)),
        ind < ls.len(),
    ensures
        match r {
            Ok((path, n)) => p_package_path(lexem_views(ls@), fp@, ind as int, Seq::empty()) == Ok::<
                (Seq<Seq<char>>, int),
                ProtoErrorV,
            >((views(path@), n as int)) && ind < n < ls.len(),
            Err(e) => p_package_path(lexem_views(ls@), fp@, ind as int, Seq::empty()) == Err::<
                (Seq<Seq<char>>, int),
                ProtoErrorV,
            >(e@),
        },
{
    let ghost lv = lexem_views(ls@);
    let mut path: Vec<String> = Vec::new();
    let mut k = ind;
    assert(views(path@) =~= Seq::<Seq<char>>::empty());
    loop
        invariant
            lv == lexem_views(ls@),
            well_ended(lv),
            ind <= k < ls.len(),
            p_package_path(lv, fp@, ind as int, Seq::empty()) == p_package_path(
                lv,
                fp@,
                k as int,
                views(path@),
            ),
        decreases ls.len() - k,
    {
        let ghost acc = views(path@);
        match &ls[k].lexem {
            Lexem::Id(id) => {
                proof {
                    lemma_not_last(lv, k as int);
                }
                path.push(id.clone());
                proof {
                    assert(views(path@) =~= acc.push(id@));
                }
            },
            _ => {
                return Err(syntax_error(fp, "Expected identifier", &ls[k]));
            },
        }
        match &ls[k + 1].lexem {
            Lexem::Dot => {
                proof {
                    lemma_not_last(lv, k + 1);
                }
                k = k + 2;
            },
            Lexem::SemiColon => {
                proof {
                    lemma_not_last(lv, k + 1);
                }
                return Ok((path, k + 2));
            },
            _ => {
                return Err(syntax_error(fp, "Expected dot or semicolon", &ls[k + 1]));
            },
        }
    }
}

/// The parse state a partly filled file and an id generator stand for.
pub open spec fn state_of(f: ProtoFileV, nid: nat) -> ParseState {
    ParseState {
        version: f.version,
        declarations: f.declarations,
        imports: f.imports,
        path: f.path,
        nid,
    }
}

/// Reads one top-level statement at `ind` into `res`.
fn parse_statement(
    ls: &Vec<LocatedLexem>,
    fp: &str,
    ind: usize,
    res: &mut ProtoFile,
    ids: &mut IdGenerator,
) -> (r: Result<usize, ProtoError>)
    requires
        well_ended(lexem_views(ls@)),
        ind < ls.len(),
        old(ids)@ + ls.len() - ind < usize::MAX,
    ensures
        match r {
            Ok(n) => p_statement(
                lexem_views(ls@),
                fp@,
                ind as int,
                state_of(old(res)@, old(ids)@),
            ) == Ok::<(ParseState, int), ProtoErrorV>(
                (state_of(final(res)@, final(ids)@), n as int),
            ) && ind < n < ls.len() && final(ids)@ <= old(ids)@ + (n - ind) && final(res)@.name
                == old(res)@.name,
            Err(e) => p_statement(
                lexem_views(ls@),
                fp@,
                ind as int,
                state_of(old(res)@, old(ids)@),
            ) == Err::<(ParseState, int), ProtoErrorV>(e@),
        },
{
    reveal(p_statement);
    let ghost lv = lexem_views(ls@);
    let lexem = &ls[ind].lexem;
    if lexem_is_word(lexem, "syntax") {
        if 3 >= ls.len() - ind {
            return Err(syntax_error(fp, "Not enough lexems for syntax statement", &ls[ind]));
        }
        match (&ls[ind + 1].lexem, &ls[ind + 2].lexem, &ls[ind + 3].lexem) {
            (Lexem::Equal, Lexem::StringLiteral(s), Lexem::SemiColon) => {
                proof {
                    lemma_not_last(lv, ind + 3);
                }
                if *s == "proto2".to_owned() {
                    Ok(ind + 4)
                } else if *s == "proto3".to_owned() {
                    res.version = ProtoVersion::Proto3;
                    Ok(ind + 4)
                } else {
                    Err(syntax_error(fp, "Invalid syntax statement", &ls[ind]))
                }
            },
            _ => Err(syntax_error(fp, "Invalid syntax statement", &ls[ind])),
        }
    } else if lexem_is_word(lexem, "message") {
        match parse_message_statement(ls, fp, ind, ids) {
            Ok((m, n)) => {
                let ghost before = res.declarations@;
                res.declarations.push(Declaration::Message(m));
                proof {
                    assert(res.declarations@.map_values(|d: Declaration| d@) =~= before.map_values(
                        |d: Declaration| d@,
                    ).push(DeclarationV::Message(m@)));
                }
                Ok(n)
            },
            Err(e) => Err(e),
        }
    } else if lexem_is_word(lexem, "import") {
        if 2 >= ls.len() - ind {
            return Err(syntax_error(fp, "Not enough lexems for import statement", &ls[ind]));
        }
        match (&ls[ind + 1].lexem, &ls[ind + 2].lexem) {
            (Lexem::StringLiteral(s), Lexem::SemiColon) => {
                proof {
                    lemma_not_last(lv, ind + 2);
                }
                let import = import_path_from(s);
                let ghost before = res.imports@;
                res.imports.push(import);
                proof {
                    assert(res.imports@.map_values(|i: ImportPath| i@) =~= before.map_values(
                        |i: ImportPath| i@,
                    ).push(import_path_of(s@)));
                }
                Ok(ind + 3)
            },
            _ => Err(syntax_error(fp, "Invalid import statement", &ls[ind])),
        }
    } else if lexem_is_word(lexem, "package") {
        if 2 >= ls.len() - ind {
            return Err(syntax_error(fp, "Not enough lexems for package statement", &ls[ind]));
        }
        match parse_package_path(ls, fp, ind + 1) {
            Ok((path, n)) => {
                res.path = path;
                Ok(n)
            },
            Err(e) => Err(e),
        }
    } else if lexem_is_word(lexem, "enum") {
        match parse_enum_statement(ls, fp, ind, ids) {
            Ok((e, n)) => {
                let ghost before = res.declarations@;
                let ghost ev = e@;
                res.declarations.push(Declaration::Enum(e));
                proof {
                    assert(res.declarations@.map_values(|d: Declaration| d@) =~= before.map_values(
                        |d: Declaration| d@,
                    ).push(DeclarationV::Enum(ev)));
                }
                Ok(n)
            },
            Err(e) => Err(e),
        }
    } else {
        match lexem {
            Lexem::Id(id) => {
                let mut message = "Unexpected identifier: ".to_owned();
                message.append(id.as_str());
                Err(syntax_error(fp, message.as_str(), &ls[ind]))
            },
            other => {
                let mut message = "Unexpected lexem ".to_owned();
                let shown = lexem_debug_text(other);
                message.append(shown.as_str());
                Err(syntax_error(fp, message.as_str(), &ls[ind]))
            },
        }
    }
}

/// Parses the lexems of a file named `name` at `file_path` into its
/// declarations, imports, package path and syntax version. Declarations get
/// the generator's next ids in the order their statements begin.
pub fn parse_package(
    located_lexems: &Vec<LocatedLexem>,
    file_path: &str,
    name: String,
    ids: &mut IdGenerator,
) -> (r: Result<ProtoFile, ProtoError>)
    requires
        well_ended(lexem_views(located_lexems@)),
        old(ids)@ + located_lexems.len() < usize::MAX,
    ensures
        match r {
            Ok(f) => parse_file(lexem_views(located_lexems@), file_path@, name@, old(ids)@) == Ok::<
                (ProtoFileV, nat),
                ProtoErrorV,
            >((f@, final(ids)@)),
            Err(e) => parse_file(lexem_views(located_lexems@), file_path@, name@, old(ids)@)
                == Err::<(ProtoFileV, nat), ProtoErrorV>(e@),
        },
{
    let ghost lv = lexem_views(located_lexems@);
    let ghost name_v = name@;
    let ghost start_id = ids@;
    let mut res = ProtoFile {
        version: ProtoVersion::Proto2,
        declarations: Vec::new(),
        imports: Vec::new(),
        path: Vec::new(),
        name,
    };
    proof {
        assert(res@.declarations =~= Seq::<DeclarationV>::empty());
        assert(res@.imports =~= Seq::<ImportPathV>::empty());
        assert(res@.path =~= Seq::<Seq<char>>::empty());
    }
    let mut ind: usize = 0;
    while !matches!(located_lexems[ind].lexem, Lexem::EOF)
        invariant
            lv == lexem_views(located_lexems@),
            well_ended(lv),
            ind < located_lexems.len(),
            ids@ <= start_id + ind,
            start_id == old(ids)@,
            name_v == name@,
            start_id + located_lexems.len() < usize::MAX,
            res@.name == name_v,
            p_statements(lv, file_path@, 0, state_of(ProtoFileV {
                version: ProtoVersion::Proto2,
                declarations: Seq::empty(),
                imports: Seq::empty(),
                path: Seq::empty(),
                name: name_v,
            }, start_id)) == p_statements(lv, file_path@, ind as int, state_of(res@, ids@)),
        decreases located_lexems.len() - ind,
    {
        let ghost st = state_of(res@, ids@);
        match parse_statement(located_lexems, file_path, ind, &mut res, ids) {
            Ok(n) => {
                ind = n;
            },
            Err(e) => {
                proof {
                    assert(!(lv[ind as int].lexem is EOF));
                    assert(p_statements(lv, file_path@, ind as int, st) == Err::<
                        ParseState,
                        ProtoErrorV,
                    >(e@));
                    assert(state_of(ProtoFileV {
                        version: ProtoVersion::Proto2,
                        declarations: Seq::empty(),
                        imports: Seq::empty(),
                        path: Seq::empty(),
                        name: name_v,
                    }, start_id) == ParseState {
                        version: ProtoVersion::Proto2,
                        declarations: Seq::empty(),
                        imports: Seq::empty(),
                        path: Seq::empty(),
                        nid: start_id,
                    });
                    assert(parse_file(lv, file_path@, name_v, start_id) == Err::<
                        (ProtoFileV, nat),
                        ProtoErrorV,
                    >(e@));
                }
                return Err(e);
            },
        }
    }
    Ok(res)
}

} // verus!
