//! Imports between generated modules.
use vstd::prelude::*;
use crate::compiler::ast::{File, Identifier, ImportClause, ImportDeclaration, ImportSpecifier, StringLiteral, Statement};
use crate::compiler::ts_path::{TsPathComponent, TsPathComponentV, ts_component_name, ts_components_view};
use crate::error::ProtoError;
use crate::text::push_char;

verus! {

/// Whether a step names a declaration.
pub open spec fn is_decl(c: TsPathComponentV) -> bool {
    c is Enum || c is Interface || c is Function
}

/// The two paths without their common leading steps.
pub open spec fn strip_common(from: Seq<TsPathComponentV>, to: Seq<TsPathComponentV>) -> (Seq<TsPathComponentV>, Seq<TsPathComponentV>)
    decreases from.len(),
{
    if from.len() > 0 && to.len() > 0 && from[0] == to[0] {
        strip_common(from.drop_first(), to.drop_first())
    } else {
        (from, to)
    }
}

/// `/name` for each step of `to` before its first declaration.
pub open spec fn same_folder_text(to: Seq<TsPathComponentV>) -> Seq<char>
    decreases to.len(),
{
    if to.len() == 0 || is_decl(to[0]) {
        Seq::empty()
    } else {
        "/"@ + ts_component_name(to[0]) + same_folder_text(to.drop_first())
    }
}

/// `../` for each leading folder of `from`.
pub open spec fn up_text(from: Seq<TsPathComponentV>) -> Seq<char>
    decreases from.len(),
{
    if from.len() > 0 && from[0] is Folder {
        "../"@ + up_text(from.drop_first())
    } else {
        Seq::empty()
    }
}

/// `name/` for each leading folder of `to`, then the name of the file after them.
pub open spec fn down_text(to: Seq<TsPathComponentV>) -> Seq<char>
    decreases to.len(),
{
    if to.len() > 0 && to[0] is Folder {
        ts_component_name(to[0]) + "/"@ + down_text(to.drop_first())
    } else if to.len() > 0 {
        ts_component_name(to[0])
    } else {
        Seq::empty()
    }
}

/// Whether `to` is some folders, then a file.
pub open spec fn folders_then_file(to: Seq<TsPathComponentV>) -> bool
    decreases to.len(),
{
    to.len() > 0 && (to[0] is File || (to[0] is Folder && folders_then_file(to.drop_first())))
}

/// Whether a module at `from` can import the declaration at `to`.
pub open spec fn import_path_ok(from: Seq<TsPathComponentV>, to: Seq<TsPathComponentV>) -> bool {
    let (f, t) = strip_common(from, to);
    &&& to.len() > 0
    &&& is_decl(to.last())
    &&& f.len() > 0 ==> t.len() > 0 && (f[0] is File || folders_then_file(t))
}

/// The module specifier with which the module at `from` imports the declaration at
/// `to`; none where `from` lies inside `to`'s own path.
pub open spec fn relative_import_text(from: Seq<TsPathComponentV>, to: Seq<TsPathComponentV>) -> Option<Seq<char>> {
    let (f, t) = strip_common(from, to);
    if f.len() == 0 {
        None
    } else if f[0] is File {
        Some("."@ + same_folder_text(t))
    } else {
        Some(up_text(f) + down_text(t))
    }
}

/// Whether two steps are the same.
fn same_component(a: &TsPathComponent, b: &TsPathComponent) -> (r: bool)
    ensures
        r == (a@ == b@),
{
    match (a, b) {
        (TsPathComponent::Folder(x), TsPathComponent::Folder(y)) => *x == *y,
        (TsPathComponent::File(x), TsPathComponent::File(y)) => *x == *y,
        (TsPathComponent::Enum(x), TsPathComponent::Enum(y)) => *x == *y,
        (TsPathComponent::Interface(x), TsPathComponent::Interface(y)) => *x == *y,
        (TsPathComponent::Function(x), TsPathComponent::Function(y)) => *x == *y,
        _ => false,
    }
}

/// The module specifier with which the module at `from` imports the declaration at `to`.
pub fn get_relative_import_string(from: &[TsPathComponent], to: &[TsPathComponent]) -> (r: Option<String>)
    requires
        import_path_ok(ts_components_view(from@), ts_components_view(to@)),
    ensures
        match r {
            Some(s) => relative_import_text(ts_components_view(from@), ts_components_view(to@)) == Some(s@),
            None => relative_import_text(ts_components_view(from@), ts_components_view(to@)) is None,
        },
{
    let ghost fv = ts_components_view(from@);
    let ghost tv = ts_components_view(to@);
    assert(fv.skip(0) =~= fv);
    assert(tv.skip(0) =~= tv);
    let mut i: usize = 0;
    let mut j: usize = 0;
    while i < from.len() && j < to.len() && same_component(&from[i], &to[j])
        invariant
            i <= from@.len(),
            j <= to@.len(),
            i == j,
            fv == ts_components_view(from@),
            tv == ts_components_view(to@),
            strip_common(fv, tv) == strip_common(fv.skip(i as int), tv.skip(j as int)),
        decreases from@.len() - i,
    {
        assert(fv.skip(i as int)[0] == fv[i as int]);
        assert(tv.skip(j as int)[0] == tv[j as int]);
        assert(fv.skip(i as int).drop_first() =~= fv.skip(i + 1));
        assert(tv.skip(j as int).drop_first() =~= tv.skip(j + 1));
        i = i + 1;
        j = j + 1;
    }
    let ghost f = fv.skip(i as int);
    let ghost t = tv.skip(j as int);
    proof {
        if i < from@.len() && j < to@.len() {
            assert(f[0] != t[0]);
        }
        assert(strip_common(f, t) == (f, t));
    }
    if i >= from.len() {
        return None;
    }
    if from[i].is_file() {
        let mut file_string = String::new();
        file_string.append(".");
        let ghost start = file_string@;
        let mut k: usize = j;
        assert(tv.skip(k as int) == t);
        while k < to.len() && !to[k].is_declaration()
            invariant
                j <= k <= to@.len(),
                tv == ts_components_view(to@),
                t == tv.skip(j as int),
                start + same_folder_text(t) == file_string@ + same_folder_text(tv.skip(k as int)),
            decreases to@.len() - k,
        {
            assert(tv.skip(k as int)[0] == tv[k as int]);
            assert(tv.skip(k as int).drop_first() =~= tv.skip(k + 1));
            let ghost before = file_string@;
            file_string.append("/");
            let name = to[k].name();
            file_string.append(name.as_str());
            assert(before + same_folder_text(tv.skip(k as int)) =~= file_string@ + same_folder_text(tv.skip(k + 1)));
            k = k + 1;
        }
        assert(same_folder_text(tv.skip(k as int)) =~= Seq::<char>::empty());
        assert(file_string@ =~= "."@ + same_folder_text(t));
        return Some(file_string);
    }
    let mut import_string = String::new();
    let mut a: usize = i;
    while a < from.len() && from[a].is_folder()
        invariant
            i <= a <= from@.len(),
            fv == ts_components_view(from@),
            f == fv.skip(i as int),
            up_text(f) == import_string@ + up_text(fv.skip(a as int)),
        decreases from@.len() - a,
    {
        assert(fv.skip(a as int)[0] == fv[a as int]);
        assert(fv.skip(a as int).drop_first() =~= fv.skip(a + 1));
        let ghost before = import_string@;
        import_string.append("../");
        assert(before + up_text(fv.skip(a as int)) =~= import_string@ + up_text(fv.skip(a + 1)));
        a = a + 1;
    }
    assert(up_text(fv.skip(a as int)) =~= Seq::<char>::empty());
    let ghost mid = import_string@;
    let mut b: usize = j;
    while b < to.len() && to[b].is_folder()
        invariant
            j <= b <= to@.len(),
            tv == ts_components_view(to@),
            t == tv.skip(j as int),
            folders_then_file(t) ==> folders_then_file(tv.skip(b as int)),
            mid + down_text(t) == import_string@ + down_text(tv.skip(b as int)),
        decreases to@.len() - b,
    {
        assert(tv.skip(b as int)[0] == tv[b as int]);
        assert(tv.skip(b as int).drop_first() =~= tv.skip(b + 1));
        let ghost before = import_string@;
        let folder_name = to[b].name();
        import_string.append(folder_name.as_str());
        push_char(&mut import_string, '/');
        proof {
            reveal_strlit("/");
            assert(before + down_text(tv.skip(b as int)) =~= import_string@ + down_text(tv.skip(b + 1)));
        }
        b = b + 1;
    }
    assert(tv.skip(b as int)[0] == tv[b as int]);
    let file_name = to[b].name();
    import_string.append(file_name.as_str());
    assert(import_string@ =~= up_text(f) + down_text(t));
    Some(import_string)
}

/// `import { <name of to's last step> } from "<relative path>"`, unless `from` lies
/// inside `to`'s own path.
pub fn get_relative_import(from: &[TsPathComponent], to: &[TsPathComponent]) -> (r: Option<ImportDeclaration>)
    requires
        import_path_ok(ts_components_view(from@), ts_components_view(to@)),
    ensures
        match relative_import_text(ts_components_view(from@), ts_components_view(to@)) {
            Some(text) => r matches Some(d) && d.string_literal.text@ == text && d.import_clause.name is None
                && (d.import_clause.named_bindings matches Some(b) && b@.len() == 1
                && b@[0].name.text@ == ts_component_name(ts_components_view(to@).last())
                && b@[0].property_name is None),
            None => r is None,
        },
{
    let imported_name = to[to.len() - 1].name();
    assert(ts_components_view(to@).last() == to@[to@.len() - 1]@);
    match get_relative_import_string(from, to) {
        Some(import_string) => {
            let mut specifiers: Vec<ImportSpecifier> = Vec::new();
            specifiers.push(ImportSpecifier::new(Identifier::new(imported_name.as_str())));
            Some(ImportDeclaration::import(specifiers, StringLiteral::new(import_string)))
        },
        None => None,
    }
}

/// The index of the leading import declaration from `path`, or of the first statement
/// after the leading imports.
pub open spec fn import_slot(ss: Seq<Statement>, path: Seq<char>) -> int
    decreases ss.len(),
{
    if ss.len() == 0 {
        0
    } else {
        match ss[0] {
            Statement::ImportDeclaration(d) => if d.string_literal.text@ == path {
                0
            } else {
                1 + import_slot(ss.drop_first(), path)
            },
            _ => 0,
        }
    }
}

pub proof fn lemma_import_slot(ss: Seq<Statement>, path: Seq<char>)
    ensures
        0 <= import_slot(ss, path) <= ss.len(),
    decreases ss.len(),
{
    if ss.len() > 0 {
        lemma_import_slot(ss.drop_first(), path);
    }
}

/// Whether the statement at `slot` imports from `path`.
pub open spec fn imports_from(ss: Seq<Statement>, slot: int, path: Seq<char>) -> bool {
    0 <= slot < ss.len() && (ss[slot] matches Statement::ImportDeclaration(d) && d.string_literal.text@ == path)
}

/// Whether `new` is `old`, or `old` with one import declaration inserted.
pub open spec fn same_or_one_import_more(old: Seq<Statement>, new: Seq<Statement>) -> bool {
    ||| new == old
    ||| exists|i: int| 0 <= i <= old.len() && new == old.insert(i, new[i]) && (#[trigger] new[i]) is ImportDeclaration
}

/// Whether every statement is an import declaration.
pub open spec fn all_imports(ss: Seq<Statement>) -> bool {
    forall|k: int| 0 <= k < ss.len() ==> (#[trigger] ss[k]) is ImportDeclaration
}

/// Whether one of the statements is `import { <name> } from "<path>"`.
pub open spec fn has_plain_import(ss: Seq<Statement>, name: Seq<char>, path: Seq<char>) -> bool {
    exists|k: int| 0 <= k < ss.len() && is_plain_import(#[trigger] ss[k], name, path)
}

/// Whether one of the statements is `import { <function> as <alias> } from "<path>"`.
pub open spec fn has_function_import(ss: Seq<Statement>, alias: Seq<char>, function: Seq<char>, path: Seq<char>) -> bool {
    exists|k: int| 0 <= k < ss.len() && is_function_import(#[trigger] ss[k], alias, function, path)
}

/// The path an import declaration imports from.
pub open spec fn import_path_of(s: Statement) -> Seq<char> {
    match s {
        Statement::ImportDeclaration(d) => d.string_literal.text@,
        _ => Seq::empty(),
    }
}

/// Whether one of the statements imports from `path`.
pub open spec fn imports_path(ss: Seq<Statement>, path: Seq<char>) -> bool {
    exists|k: int| 0 <= k < ss.len() && import_path_of(#[trigger] ss[k]) == path
}

/// In a list of imports none of which is from `path`, an import from it goes last.
pub proof fn lemma_slot_after_all_imports(ss: Seq<Statement>, path: Seq<char>)
    requires
        all_imports(ss),
        !imports_path(ss, path),
    ensures
        import_slot(ss, path) == ss.len(),
    decreases ss.len(),
{
    if ss.len() > 0 {
        let rest = ss.drop_first();
        assert forall|k: int| 0 <= k < rest.len() implies (#[trigger] rest[k]) is ImportDeclaration by {
            assert(rest[k] == ss[k + 1]);
        }
        assert(!imports_path(rest, path)) by {
            if imports_path(rest, path) {
                let k = choose|k: int| 0 <= k < rest.len() && import_path_of(#[trigger] rest[k]) == path;
                assert(import_path_of(ss[k + 1]) == path);
            }
        }
        lemma_slot_after_all_imports(rest, path);
        assert(import_path_of(ss[0]) != path);
    }
}

/// In a list of imports, the slot of a path holds an import from it exactly where
/// some import is from it.
pub proof fn lemma_imports_from_slot(ss: Seq<Statement>, path: Seq<char>)
    requires
        all_imports(ss),
    ensures
        imports_from(ss, import_slot(ss, path), path) <==> imports_path(ss, path),
    decreases ss.len(),
{
    if ss.len() > 0 {
        let rest = ss.drop_first();
        assert(all_imports(rest)) by {
            assert forall|k: int| 0 <= k < rest.len() implies (#[trigger] rest[k]) is ImportDeclaration by {
                assert(rest[k] == ss[k + 1]);
            }
        }
        lemma_imports_from_slot(rest, path);
        assert(ss[0] is ImportDeclaration);
        if import_path_of(ss[0]) == path {
            assert(import_slot(ss, path) == 0);
        } else {
            assert(import_slot(ss, path) == 1 + import_slot(rest, path));
            if imports_path(ss, path) {
                let k = choose|k: int| 0 <= k < ss.len() && import_path_of(#[trigger] ss[k]) == path;
                assert(k > 0);
                assert(import_path_of(rest[k - 1]) == path);
            }
            if imports_path(rest, path) {
                let k = choose|k: int| 0 <= k < rest.len() && import_path_of(#[trigger] rest[k]) == path;
                assert(import_path_of(ss[k + 1]) == path);
            }
        }
    }
}

/// The paths imported from once one import is inserted: those there were and its own.
pub proof fn lemma_insert_import_paths(ss: Seq<Statement>, i: int, x: Statement)
    requires
        0 <= i <= ss.len(),
    ensures
        forall|q: Seq<char>| #[trigger] imports_path(ss.insert(i, x), q) <==> (imports_path(ss, q) || import_path_of(x) == q),
{
    let n = ss.insert(i, x);
    ss.insert_ensures(i, x);
    assert forall|q: Seq<char>| #[trigger] imports_path(n, q) <==> (imports_path(ss, q) || import_path_of(x) == q) by {
        if imports_path(n, q) {
            let k = choose|k: int| 0 <= k < n.len() && import_path_of(#[trigger] n[k]) == q;
            if k < i {
                assert(import_path_of(ss[k]) == q);
            } else if k > i {
                assert(n[k] == ss[k - 1]);
                assert(import_path_of(ss[k - 1]) == q);
            }
        }
        if imports_path(ss, q) {
            let k = choose|k: int| 0 <= k < ss.len() && import_path_of(#[trigger] ss[k]) == q;
            if k < i {
                assert(import_path_of(n[k]) == q);
            } else {
                assert(import_path_of(n[k + 1]) == q);
            }
        }
        if import_path_of(x) == q {
            assert(import_path_of(n[i]) == q);
        }
    }
}

/// What importing a function from the module found at `reference` (see
/// `function_ref`) does to a list of imports, told by whether it succeeded: it
/// fails where the function is not found or its path is imported from already, and
/// otherwise adds that path, where it is another module's, to the paths imported from.
pub proof fn lemma_function_import_outcome(old: Seq<Statement>, new: Seq<Statement>, reference: Option<Option<Seq<char>>>, ok: bool)
    requires
        all_imports(old),
        reference is None ==> !ok,
        reference == Some(None::<Seq<char>>) ==> ok && new == old,
        reference matches Some(Some(p)) ==> if imports_from(old, import_slot(old, p), p) {
            !ok
        } else {
            ok && new == old.insert(import_slot(old, p), new[import_slot(old, p)])
                && new[import_slot(old, p)] is ImportDeclaration && import_path_of(new[import_slot(old, p)]) == p
        },
    ensures
        ok <==> (reference is Some && (reference matches Some(Some(p)) ==> !imports_path(old, p))),
        ok ==> all_imports(new),
        ok ==> forall|q: Seq<char>| #[trigger] imports_path(new, q) <==> (imports_path(old, q) || reference == Some(Some(q))),
{
    if let Some(Some(p)) = reference {
        lemma_imports_from_slot(old, p);
        lemma_import_slot(old, p);
        if ok {
            let slot = import_slot(old, p);
            lemma_insert_import_paths(old, slot, new[slot]);
            old.insert_ensures(slot, new[slot]);
            assert forall|k: int| 0 <= k < new.len() implies (#[trigger] new[k]) is ImportDeclaration by {
                if k < slot {
                    assert(new[k] == old[k]);
                } else if k > slot {
                    assert(new[k] == old[k - 1]);
                }
            }
        }
    }
}

/// Whether the path at `i`, where there is one, is new: neither the runtime nor
/// `./types`, nor any path before it.
pub open spec fn fresh_at(ps: Seq<Option<Seq<char>>>, i: int) -> bool {
    ps[i] matches Some(p) ==> p != "protobufjs/minimal"@ && p != "./types"@ && !ps.take(i).contains(Some(p))
}

/// Whether each path is new (see `fresh_at`).
pub open spec fn fresh_paths(ps: Seq<Option<Seq<char>>>) -> bool {
    forall|i: int| 0 <= i < ps.len() ==> #[trigger] fresh_at(ps, i)
}

/// Whether the statements import from the runtime, from `./types` and from the paths
/// given, and from nothing else.
pub open spec fn imports_exactly(ss: Seq<Statement>, ps: Seq<Option<Seq<char>>>) -> bool {
    forall|q: Seq<char>| #[trigger] imports_path(ss, q) <==> (q == "protobufjs/minimal"@ || q == "./types"@ || ps.contains(Some(q)))
}

/// One more import of a generated module: it can be added exactly where its path is
/// new, and then the module imports from that path too.
pub proof fn lemma_fresh_step(old: Seq<Statement>, new: Seq<Statement>, ps: Seq<Option<Seq<char>>>, k: int)
    requires
        0 <= k < ps.len(),
        fresh_paths(ps.take(k)),
        imports_exactly(old, ps.take(k)),
    ensures
        (ps[k] matches Some(p) ==> !imports_path(old, p)) <==> fresh_at(ps, k),
        fresh_paths(ps) ==> fresh_at(ps, k),
        fresh_at(ps, k) && (forall|q: Seq<char>| #[trigger] imports_path(new, q) <==> (imports_path(old, q) || ps[k] == Some(q)))
            ==> imports_exactly(new, ps.take(k + 1)) && fresh_paths(ps.take(k + 1)),
{
    let t = ps.take(k + 1);
    assert(t.take(k) =~= ps.take(k));
    assert(t =~= ps.take(k).push(ps[k]));
    assert forall|i: int| 0 <= i < k implies #[trigger] fresh_at(t, i) == fresh_at(ps.take(k), i) by {
        assert(t.take(i) =~= ps.take(k).take(i));
        assert(t[i] == ps.take(k)[i]);
    }
    assert(fresh_at(t, k) == fresh_at(ps, k)) by {
        assert(t.take(k) =~= ps.take(k));
    }
    if fresh_at(ps, k) && (forall|q: Seq<char>| #[trigger] imports_path(new, q) <==> (imports_path(old, q) || ps[k] == Some(q))) {
        assert forall|i: int| 0 <= i < t.len() implies #[trigger] fresh_at(t, i) by {
            if i < k {
                assert(fresh_at(ps.take(k), i));
            }
        }
        assert forall|q: Seq<char>| #[trigger] imports_path(new, q) <==> (q == "protobufjs/minimal"@ || q == "./types"@ || t.contains(Some(q))) by {
            if t.contains(Some(q)) {
                let j = choose|j: int| 0 <= j < t.len() && t[j] == Some(q);
                if j < k {
                    assert(ps.take(k)[j] == Some(q));
                    assert(ps.take(k).contains(Some(q)));
                }
            }
            if ps.take(k).contains(Some(q)) {
                let j = choose|j: int| 0 <= j < ps.take(k).len() && ps.take(k)[j] == Some(q);
                assert(t[j] == Some(q));
            }
            if ps[k] == Some(q) {
                assert(t[k] == Some(q));
            }
        }
    }
}

/// What adding `import { <name> } from "<path>"` does to a module's statements (see
/// `ensure_import`): where no leading import is from that path, the import is inserted
/// after the leading imports; else that import alone may change, `name` joining it
/// where it binds nothing yet.
pub open spec fn plain_import_effect(old: Seq<Statement>, new: Seq<Statement>, name: Seq<char>, path: Seq<char>) -> bool {
    let slot = import_slot(old, path);
    if !imports_from(old, slot, path) {
        new == old.insert(slot, new[slot]) && is_plain_import(new[slot], name, path)
    } else {
        &&& new.len() == old.len()
        &&& forall|k: int| 0 <= k < old.len() && k != slot ==> new[k] == old[k]
        &&& old[slot] matches Statement::ImportDeclaration(d)
        &&& new[slot] matches Statement::ImportDeclaration(e)
        &&& e.string_literal == d.string_literal
        &&& e.import_clause.name == d.import_clause.name
        &&& match d.import_clause.named_bindings {
            Some(v) => if v@.len() > 0 {
                e.import_clause.named_bindings matches Some(w) && w@ == v@
            } else {
                e.import_clause.named_bindings matches Some(w) && w@.len() == 1 && w@[0].name.text@ == name
                    && w@[0].property_name is None
            },
            None => e.import_clause.named_bindings matches Some(w) && w@.len() == 1 && w@[0].name.text@ == name
                && w@[0].property_name is None,
        }
    }
}

/// How many statements at the front of a module are import declarations.
pub open spec fn leading_imports(ss: Seq<Statement>) -> nat
    decreases ss.len(),
{
    if ss.len() > 0 && ss[0] is ImportDeclaration {
        1 + leading_imports(ss.drop_first())
    } else {
        0
    }
}

/// The statements after the leading imports.
pub open spec fn after_imports(ss: Seq<Statement>) -> Seq<Statement> {
    ss.skip(leading_imports(ss) as int)
}

/// The leading imports are the longest run of imports at the front.
pub proof fn lemma_leading_imports(ss: Seq<Statement>)
    ensures
        leading_imports(ss) <= ss.len(),
        forall|k: int| 0 <= k < leading_imports(ss) ==> (#[trigger] ss[k]) is ImportDeclaration,
        leading_imports(ss) < ss.len() ==> !(ss[leading_imports(ss) as int] is ImportDeclaration),
    decreases ss.len(),
{
    if ss.len() > 0 && ss[0] is ImportDeclaration {
        let rest = ss.drop_first();
        lemma_leading_imports(rest);
        assert forall|k: int| 0 <= k < leading_imports(ss) implies (#[trigger] ss[k]) is ImportDeclaration by {
            if k > 0 {
                assert(ss[k] == rest[k - 1]);
            }
        }
        if leading_imports(ss) < ss.len() {
            assert(ss[leading_imports(ss) as int] == rest[leading_imports(rest) as int]);
        }
    }
}

/// A run of `n` imports at the front, not followed by an import, is the leading one.
pub proof fn lemma_leading_imports_is(ss: Seq<Statement>, n: int)
    requires
        0 <= n <= ss.len(),
        forall|k: int| 0 <= k < n ==> (#[trigger] ss[k]) is ImportDeclaration,
        n < ss.len() ==> !(ss[n] is ImportDeclaration),
    ensures
        leading_imports(ss) == n,
    decreases ss.len(),
{
    if n > 0 {
        let rest = ss.drop_first();
        assert(ss[0] is ImportDeclaration);
        assert forall|k: int| 0 <= k < n - 1 implies (#[trigger] rest[k]) is ImportDeclaration by {
            assert(rest[k] == ss[k + 1]);
        }
        if n - 1 < rest.len() {
            assert(rest[n - 1] == ss[n]);
        }
        lemma_leading_imports_is(rest, n - 1);
    }
}

/// The slot of a path lies within the leading imports or just after them.
pub proof fn lemma_import_slot_leading(ss: Seq<Statement>, path: Seq<char>)
    ensures
        import_slot(ss, path) <= leading_imports(ss),
    decreases ss.len(),
{
    if ss.len() > 0 && ss[0] is ImportDeclaration {
        lemma_import_slot_leading(ss.drop_first(), path);
    }
}

/// Adding an import leaves what follows the leading imports as it was.
pub proof fn lemma_plain_import_keeps_rest(old: Seq<Statement>, new: Seq<Statement>, name: Seq<char>, path: Seq<char>)
    requires
        plain_import_effect(old, new, name, path),
    ensures
        after_imports(new) == after_imports(old),
{
    let slot = import_slot(old, path);
    let n = leading_imports(old) as int;
    lemma_import_slot(old, path);
    lemma_import_slot_leading(old, path);
    lemma_leading_imports(old);
    if !imports_from(old, slot, path) {
        old.insert_ensures(slot, new[slot]);
        assert forall|k: int| 0 <= k < n + 1 implies (#[trigger] new[k]) is ImportDeclaration by {
            if k < slot {
                assert(new[k] == old[k]);
            } else if k > slot {
                assert(new[k] == old[k - 1]);
            }
        }
        if n + 1 < new.len() {
            assert(new[n + 1] == old[n]);
        }
        lemma_leading_imports_is(new, n + 1);
        assert(new.skip(n + 1) =~= old.skip(n)) by {
            assert forall|k: int| 0 <= k < new.skip(n + 1).len() implies new.skip(n + 1)[k] == old.skip(n)[k] by {
                assert(new[n + 1 + k] == old[n + k]);
            }
        }
    } else {
        assert(slot < n) by {
            if slot >= n {
                assert(slot == n);
            }
        }
        assert forall|k: int| 0 <= k < n implies (#[trigger] new[k]) is ImportDeclaration by {
            if k != slot {
                assert(new[k] == old[k]);
            }
        }
        if n < new.len() {
            assert(new[n] == old[n]);
        }
        lemma_leading_imports_is(new, n);
        assert(new.skip(n) =~= old.skip(n)) by {
            assert forall|k: int| 0 <= k < new.skip(n).len() implies new.skip(n)[k] == old.skip(n)[k] by {
                assert(new[n + k] == old[n + k]);
            }
        }
    }
}

/// Appending a statement that is no import appends it to what follows the imports.
pub proof fn lemma_push_after_imports(ss: Seq<Statement>, x: Statement)
    requires
        !(x is ImportDeclaration),
    ensures
        after_imports(ss.push(x)) == after_imports(ss).push(x),
        leading_imports(ss.push(x)) == leading_imports(ss),
{
    let n = leading_imports(ss) as int;
    lemma_leading_imports(ss);
    let t = ss.push(x);
    assert forall|k: int| 0 <= k < n implies (#[trigger] t[k]) is ImportDeclaration by {
        assert(t[k] == ss[k]);
    }
    if n < ss.len() {
        assert(t[n] == ss[n]);
    }
    lemma_leading_imports_is(t, n);
    assert(t.skip(n) =~= ss.skip(n).push(x));
}

/// Inserting an import keeps the statements there were, each import among them.
pub proof fn lemma_one_import_more(old: Seq<Statement>, new: Seq<Statement>)
    requires
        same_or_one_import_more(old, new),
    ensures
        all_imports(old) ==> all_imports(new),
        forall|name: Seq<char>, path: Seq<char>| has_plain_import(old, name, path) ==> #[trigger] has_plain_import(new, name, path),
        forall|alias: Seq<char>, function: Seq<char>, path: Seq<char>| has_function_import(old, alias, function, path)
            ==> #[trigger] has_function_import(new, alias, function, path),
{
    if new != old {
        let i = choose|i: int| 0 <= i <= old.len() && new == old.insert(i, new[i]) && (#[trigger] new[i]) is ImportDeclaration;
        old.insert_ensures(i, new[i]);
        assert forall|k: int| 0 <= k < old.len() implies (k < i ==> new[k] == old[k]) && (k >= i ==> new[k + 1] == old[k]) by {}
        if all_imports(old) {
            assert forall|k: int| 0 <= k < new.len() implies (#[trigger] new[k]) is ImportDeclaration by {
                if k < i {
                    assert(new[k] == old[k]);
                } else if k > i {
                    assert(new[k] == old[k - 1]);
                }
            }
        }
        assert forall|name: Seq<char>, path: Seq<char>| has_plain_import(old, name, path) implies #[trigger] has_plain_import(new, name, path) by {
            let k = choose|k: int| 0 <= k < old.len() && is_plain_import(#[trigger] old[k], name, path);
            if k < i {
                assert(is_plain_import(new[k], name, path));
            } else {
                assert(is_plain_import(new[k + 1], name, path));
            }
        }
        assert forall|alias: Seq<char>, function: Seq<char>, path: Seq<char>| has_function_import(old, alias, function, path)
            implies #[trigger] has_function_import(new, alias, function, path) by {
            let k = choose|k: int| 0 <= k < old.len() && is_function_import(#[trigger] old[k], alias, function, path);
            if k < i {
                assert(is_function_import(new[k], alias, function, path));
            } else {
                assert(is_function_import(new[k + 1], alias, function, path));
            }
        }
    }
}

/// Whether `s` is `import { <name> } from "<path>"`.
pub open spec fn is_plain_import(s: Statement, name: Seq<char>, path: Seq<char>) -> bool {
    &&& s matches Statement::ImportDeclaration(d)
    &&& d.import_clause.name is None
    &&& d.string_literal.text@ == path
    &&& d.import_clause.named_bindings matches Some(v)
    &&& v@.len() == 1
    &&& v@[0].name.text@ == name
    &&& v@[0].property_name is None
}

/// Whether `s` is `import { <function> as <alias> } from "<path>"`.
pub open spec fn is_function_import(s: Statement, alias: Seq<char>, function: Seq<char>, path: Seq<char>) -> bool {
    &&& s matches Statement::ImportDeclaration(d)
    &&& d.import_clause.name is None
    &&& d.string_literal.text@ == path
    &&& d.import_clause.named_bindings matches Some(v)
    &&& v@.len() == 1
    &&& v@[0].name.text@ == alias
    &&& v@[0].property_name matches Some(p) && p.text@ == function
}

/// The bindings an existing import ends with once `new` is merged into it: the
/// first new binding where it had none, else the bindings it had.
pub open spec fn merged_bindings(existing: Option<Vec<ImportSpecifier>>, new: Option<Vec<ImportSpecifier>>) -> Option<Seq<ImportSpecifier>> {
    let new_list: Seq<ImportSpecifier> = match new {
        Some(v) => v@,
        None => Seq::empty(),
    };
    match existing {
        Some(v) => if v@.len() > 0 || new_list.len() == 0 {
            Some(v@)
        } else {
            Some(seq![new_list[0]])
        },
        None => if new_list.len() == 0 {
            None
        } else {
            Some(seq![new_list[0]])
        },
    }
}

/// Whether merging `new` into an import with the bindings `existing` leaves that import
/// as it is: it has a binding already, or `new` brings none.
pub open spec fn merge_keeps(existing: Option<Vec<ImportSpecifier>>, new: Option<Vec<ImportSpecifier>>) -> bool {
    ||| existing matches Some(v) && v@.len() > 0
    ||| new is None
    ||| new matches Some(w) && w@.len() == 0
}

/// Whether any of the bindings renames what it imports.
pub open spec fn has_renamed_binding(b: Option<Vec<ImportSpecifier>>) -> bool {
    b matches Some(v) && exists|k: int| 0 <= k < v@.len() && v@[k].property_name is Some
}

/// What adding `new_import` does to a module's statements, and whether it succeeds
/// (`ok`); see `ensure_import`.
pub open spec fn import_outcome(old: Seq<Statement>, new: Seq<Statement>, new_import: ImportDeclaration, ok: bool) -> bool {
    let slot = import_slot(old, new_import.string_literal.text@);
    if !imports_from(old, slot, new_import.string_literal.text@) {
        ok && new == old.insert(slot, Statement::ImportDeclaration(Box::new(new_import)))
    } else if has_renamed_binding(new_import.import_clause.named_bindings) {
        !ok && new == old
    } else {
        ok && new.len() == old.len()
            && (forall|k: int| 0 <= k < old.len() && k != slot ==> new[k] == old[k])
            && (old[slot] matches Statement::ImportDeclaration(d)
            && new[slot] matches Statement::ImportDeclaration(e)
            && e.string_literal == d.string_literal && e.import_clause.name == d.import_clause.name
            && (match (e.import_clause.named_bindings, merged_bindings(d.import_clause.named_bindings, new_import.import_clause.named_bindings)) {
                (Some(v), Some(m)) => v@ == m,
                (None, None) => true,
                _ => false,
            })
            && (merge_keeps(d.import_clause.named_bindings, new_import.import_clause.named_bindings) ==> new == old))
    }
}

/// Changing one import for another from the same path moves no slot.
pub proof fn lemma_import_slot_same_paths(a: Seq<Statement>, b: Seq<Statement>, i: int, path: Seq<char>)
    requires
        a.len() == b.len(),
        0 <= i < a.len(),
        forall|k: int| 0 <= k < a.len() && k != i ==> a[k] == b[k],
        a[i] is ImportDeclaration,
        b[i] is ImportDeclaration,
        import_path_of(a[i]) == import_path_of(b[i]),
    ensures
        import_slot(a, path) == import_slot(b, path),
        imports_from(a, import_slot(a, path), path) == imports_from(b, import_slot(b, path), path),
    decreases a.len(),
{
    let ra = a.drop_first();
    let rb = b.drop_first();
    if i == 0 {
        assert(ra =~= rb);
    } else {
        assert(a[0] == b[0]);
        assert forall|k: int| 0 <= k < ra.len() && k != i - 1 implies ra[k] == rb[k] by {
            assert(a[k + 1] == b[k + 1]);
        }
        lemma_import_slot_same_paths(ra, rb, i - 1, path);
    }
    assert(import_slot(a, path) == import_slot(b, path));
    let sl = import_slot(a, path);
    if 0 <= sl < a.len() && sl != i {
        assert(a[sl] == b[sl]);
    }
}

/// Adds `new_import` to the leading imports of the module: it is inserted at the end
/// of them, unless the module already imports from the same path, in which case its
/// bindings are merged into that import (see `merged_bindings`). Merging a binding
/// that renames what it imports is not implemented.
pub fn ensure_import(file: &mut File, new_import: ImportDeclaration) -> (r: Result<(), ProtoError>)
    ensures
        final(file).name == old(file).name,
        final(file).statements@.len() >= old(file).statements@.len(),
        import_outcome(old(file).statements@, final(file).statements@, new_import, r is Ok),
{
    let ghost path = new_import.string_literal.text@;
    let (index, found) = find_import_slot(&file.statements, &new_import.string_literal.text);
    if !found {
        file.statements.insert(index, Statement::ImportDeclaration(Box::new(new_import)));
        return Ok(());
    }
    let renamed = match &new_import.import_clause.named_bindings {
        Some(v) => has_renamed(v),
        None => false,
    };
    if renamed {
        return Err(ProtoError::NotImplemented("merging an import that renames its binding".to_string()));
    }
    let ghost before = file.statements@;
    let existing = file.statements.remove(index);
    match existing {
        Statement::ImportDeclaration(mut import) => {
            let ghost original = *import;
            let ImportDeclaration { import_clause, string_literal } = new_import;
            match import_clause.named_bindings {
                Some(mut v) => {
                    if v.len() > 0 {
                        let first = v.remove(0);
                        ensure_import_specifier(&mut import.import_clause, first);
                    }
                },
                None => {},
            }
            file.statements.insert(index, Statement::ImportDeclaration(import));
            assert(file.statements@ =~= before.update(index as int, file.statements@[index as int]));
            proof {
                if merge_keeps(original.import_clause.named_bindings, import_clause.named_bindings) {
                    assert(import.import_clause == original.import_clause);
                    assert(*import == original);
                    assert(file.statements@ =~= before);
                }
            }
            Ok(())
        },
        _ => {
            file.statements.insert(index, existing);
            Ok(())
        },
    }
}

/// Where `ensure_import` puts an import from `path`, and whether an import from it is there.
fn find_import_slot(statements: &Vec<Statement>, path: &String) -> (r: (usize, bool))
    ensures
        r.0 <= statements@.len(),
        r.0 == import_slot(statements@, path@),
        r.1 == imports_from(statements@, r.0 as int, path@),
{
    let ghost ss = statements@;
    proof {
        lemma_import_slot(ss, path@);
        assert(ss.skip(0) =~= ss);
    }
    let mut index: usize = 0;
    while index < statements.len()
        invariant
            index <= statements@.len(),
            statements@ == ss,
            import_slot(ss, path@) == index + import_slot(ss.skip(index as int), path@),

        decreases statements@.len() - index,
    {
        assert(ss.skip(index as int)[0] == ss[index as int]);
        assert(ss.skip(index as int).drop_first() =~= ss.skip(index + 1));
        match &statements[index] {
            Statement::ImportDeclaration(import) => {
                if import.string_literal.text != *path {
                    index = index + 1;
                } else {
                    return (index, true);
                }
            },
            _ => {
                return (index, false);
            },
        }
    }
    assert(ss.skip(index as int).len() == 0);
    (index, false)
}

/// Whether any binding renames what it imports.
fn has_renamed(v: &Vec<ImportSpecifier>) -> (r: bool)
    ensures
        r == exists|k: int| 0 <= k < v@.len() && v@[k].property_name is Some,
{
    let mut i: usize = 0;
    while i < v.len()
        invariant
            i <= v@.len(),
            forall|k: int| 0 <= k < i ==> (#[trigger] v@[k]).property_name is None,
        decreases v@.len() - i,
    {
        if v[i].property_name.is_some() {
            return true;
        }
        i = i + 1;
    }
    false
}

/// Adds a binding to an import clause that has none; a clause that already has a
/// binding is left as it is.
pub fn ensure_import_specifier(import_clause: &mut ImportClause, specifier: ImportSpecifier)
    requires
        specifier.property_name is None,
    ensures
        final(import_clause).name == old(import_clause).name,
        match old(import_clause).named_bindings {
            Some(v) => if v@.len() > 0 {
                final(import_clause).named_bindings == old(import_clause).named_bindings
            } else {
                final(import_clause).named_bindings matches Some(w) && w@ == seq![specifier]
            },
            None => final(import_clause).named_bindings matches Some(w) && w@ == seq![specifier],
        },
{
    let found = match &import_clause.named_bindings {
        Some(v) => v.len() > 0,
        None => false,
    };
    if found {
        return;
    }
    let mut named_bindings = import_clause.named_bindings.take();
    match named_bindings {
        Some(mut v) => {
            v.push(specifier);
            import_clause.named_bindings = Some(v);
        },
        None => {
            let mut v: Vec<ImportSpecifier> = Vec::new();
            v.push(specifier);
            import_clause.named_bindings = Some(v);
        },
    }
}


/// Whether `to` is some folders, then a file (see `folders_then_file`).
fn check_folders_then_file(to: &[TsPathComponent], start: usize) -> (r: bool)
    requires
        start <= to@.len(),
    ensures
        r == folders_then_file(ts_components_view(to@).skip(start as int)),
    decreases to@.len() - start,
{
    let ghost tv = ts_components_view(to@);
    if start >= to.len() {
        return false;
    }
    assert(tv.skip(start as int)[0] == tv[start as int]);
    assert(tv.skip(start as int).drop_first() =~= tv.skip(start + 1));
    if to[start].is_file() {
        return true;
    }
    to[start].is_folder() && check_folders_then_file(to, start + 1)
}

/// Whether the module at `from` can import the declaration at `to` (see `import_path_ok`).
pub fn check_import_path(from: &[TsPathComponent], to: &[TsPathComponent]) -> (r: bool)
    ensures
        r == import_path_ok(ts_components_view(from@), ts_components_view(to@)),
{
    let ghost fv = ts_components_view(from@);
    let ghost tv = ts_components_view(to@);
    if to.len() == 0 {
        return false;
    }
    assert(tv.last() == to@[to@.len() - 1]@);
    if !to[to.len() - 1].is_declaration() {
        return false;
    }
    assert(fv.skip(0) =~= fv);
    assert(tv.skip(0) =~= tv);
    let mut i: usize = 0;
    while i < from.len() && i < to.len() && same_component(&from[i], &to[i])
        invariant
            i <= from@.len(),
            i <= to@.len(),
            fv == ts_components_view(from@),
            tv == ts_components_view(to@),
            strip_common(fv, tv) == strip_common(fv.skip(i as int), tv.skip(i as int)),
        decreases from@.len() - i,
    {
        assert(fv.skip(i as int)[0] == fv[i as int]);
        assert(tv.skip(i as int)[0] == tv[i as int]);
        assert(fv.skip(i as int).drop_first() =~= fv.skip(i + 1));
        assert(tv.skip(i as int).drop_first() =~= tv.skip(i + 1));
        i = i + 1;
    }
    proof {
        if i < from@.len() && i < to@.len() {
            assert(fv.skip(i as int)[0] != tv.skip(i as int)[0]);
        }
        assert(strip_common(fv.skip(i as int), tv.skip(i as int)) == (fv.skip(i as int), tv.skip(i as int)));
    }
    if i >= from.len() {
        return true;
    }
    if i >= to.len() {
        return false;
    }
    assert(fv.skip(i as int)[0] == fv[i as int]);
    from[i].is_file() || check_folders_then_file(to, i)
}

} // verus!
