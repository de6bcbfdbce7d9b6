//! Which names can be written as plain TypeScript identifiers, and string literals.
use vstd::prelude::*;
use crate::syntax::{escaped, push_all_escaped};
use crate::text::{push_char, str_eq};

verus! {

/// A character allowed in an identifier written as is.
pub open spec fn is_safe_char(c: char) -> bool {
    c == '$' || c == '_' || ('0' <= c && c <= '9') || ('a' <= c && c <= 'z') || ('A' <= c && c <= 'Z')
}

/// Whether each character of the name is allowed in a plain identifier.
pub open spec fn safe_id(n: Seq<char>) -> bool {
    forall|i: int| 0 <= i < n.len() ==> #[trigger] is_safe_char(n[i])
}

/// Whether every character of `id` is a letter, a digit, `$` or `_`.
pub fn is_safe_id(id: &str) -> (r: bool)
    ensures
        r == safe_id(id@),
{
    let ghost v = id@;
    broadcast use vstd::string::axiom_spec_iter;
    for c in it: id.chars()
        invariant
            v == id@,
            it.seq() == v,
            forall|j: int| 0 <= j < it.index() ==> #[trigger] is_safe_char(v[j]),
    {
        if !(c == '$' || c == '_' || ('0' <= c && c <= '9') || ('a' <= c && c <= 'z') || ('A' <= c && c <= 'Z')) {
            proof {
                assert(!is_safe_char(v[it.index() as int]));
            }
            return false;
        }
    }
    true
}

/// The reserved words of JavaScript and TypeScript.
pub open spec fn reserved_word(n: Seq<char>) -> bool {
    n == "break"@ ||
        n == "case"@ ||
        n == "catch"@ ||
        n == "class"@ ||
        n == "const"@ ||
        n == "continue"@ ||
        n == "debugger"@ ||
        n == "default"@ ||
        n == "delete"@ ||
        n == "do"@ ||
        n == "else"@ ||
        n == "enum"@ ||
        n == "export"@ ||
        n == "extends"@ ||
        n == "false"@ ||
        n == "finally"@ ||
        n == "for"@ ||
        n == "function"@ ||
        n == "if"@ ||
        n == "import"@ ||
        n == "in"@ ||
        n == "instanceof"@ ||
        n == "new"@ ||
        n == "null"@ ||
        n == "return"@ ||
        n == "super"@ ||
        n == "switch"@ ||
        n == "this"@ ||
        n == "throw"@ ||
        n == "true"@ ||
        n == "try"@ ||
        n == "typeof"@ ||
        n == "var"@ ||
        n == "void"@ ||
        n == "while"@ ||
        n == "with"@ ||
        n == "yield"@ ||
        n == "let"@ ||
        n == "static"@ ||
        n == "implements"@ ||
        n == "interface"@ ||
        n == "package"@ ||
        n == "private"@ ||
        n == "protected"@ ||
        n == "public"@ ||
        n == "await"@
}

/// Whether `name` is a reserved word.
pub fn is_reserved(name: &str) -> (r: bool)
    ensures
        r == reserved_word(name@),
{
    str_eq(name, "break") ||
        str_eq(name, "case") ||
        str_eq(name, "catch") ||
        str_eq(name, "class") ||
        str_eq(name, "const") ||
        str_eq(name, "continue") ||
        str_eq(name, "debugger") ||
        str_eq(name, "default") ||
        str_eq(name, "delete") ||
        str_eq(name, "do") ||
        str_eq(name, "else") ||
        str_eq(name, "enum") ||
        str_eq(name, "export") ||
        str_eq(name, "extends") ||
        str_eq(name, "false") ||
        str_eq(name, "finally") ||
        str_eq(name, "for") ||
        str_eq(name, "function") ||
        str_eq(name, "if") ||
        str_eq(name, "import") ||
        str_eq(name, "in") ||
        str_eq(name, "instanceof") ||
        str_eq(name, "new") ||
        str_eq(name, "null") ||
        str_eq(name, "return") ||
        str_eq(name, "super") ||
        str_eq(name, "switch") ||
        str_eq(name, "this") ||
        str_eq(name, "throw") ||
        str_eq(name, "true") ||
        str_eq(name, "try") ||
        str_eq(name, "typeof") ||
        str_eq(name, "var") ||
        str_eq(name, "void") ||
        str_eq(name, "while") ||
        str_eq(name, "with") ||
        str_eq(name, "yield") ||
        str_eq(name, "let") ||
        str_eq(name, "static") ||
        str_eq(name, "implements") ||
        str_eq(name, "interface") ||
        str_eq(name, "package") ||
        str_eq(name, "private") ||
        str_eq(name, "protected") ||
        str_eq(name, "public") ||
        str_eq(name, "await")
}

/// A JavaScript string literal in double quotes holding `s`.
pub open spec fn js_string(s: Seq<char>) -> Seq<char> {
    seq!['"'] + escaped(s) + seq!['"']
}

/// The JavaScript string literal holding `s`.
pub fn to_js_string(s: &String) -> (r: String)
    ensures
        r@ == js_string(s@),
{
    let mut r = String::new();
    push_char(&mut r, '"');
    push_all_escaped(&mut r, s);
    push_char(&mut r, '"');
    r
}

} // verus!
