//! Name resolution over a package tree: the scope of a block (a file and the
//! messages around a point in it) and the declarations that names reach from it.
use vstd::prelude::*;
use crate::error::{ProtoError, ProtoErrorV};
use crate::package::{Scope, 
    Declaration, ImportPath, MessageDeclaration, ProtoFile, first_declaration_index, last_declaration_index,
};
use crate::package_tree::{PackageTree, first_file_named, subtree_at};
use crate::protopath::{PathComponent, PathComponentV, ProtoPath};
use crate::text::{join, str_eq, views};

verus! {

/// The scope of a block: the package tree, the file, and the messages that enclose
/// the block, innermost first.
#[derive(Debug)]
pub struct BlockScope<'a> {
    pub root: &'a PackageTree,
    pub proto_file: &'a ProtoFile,
    pub parent_messages: Vec<&'a MessageDeclaration>,
}

/// What a name stands for: a declaration, or a file reached through an import.
#[derive(Debug)]
pub enum IdType<'a> {
    DataType(&'a Declaration),
    Package(&'a ProtoFile),
}

/// A resolved name: what it stands for and the scope it was found in.
#[derive(Debug)]
pub struct DefinedId<'a> {
    pub scope: BlockScope<'a>,
    pub declaration: IdType<'a>,
}

/// Model of a block scope.
pub struct ScopeV {
    pub root: PackageTree,
    pub file: ProtoFile,
    pub parents: Seq<MessageDeclaration>,
}

/// Model of what a name stands for.
pub enum IdTypeV {
    DataType(Declaration),
    Package(ProtoFile),
}

/// Model of a resolved name.
pub struct DefinedIdV {
    pub scope: ScopeV,
    pub declaration: IdTypeV,
}

pub open spec fn messages_of(ps: Seq<&MessageDeclaration>) -> Seq<MessageDeclaration> {
    ps.map_values(|m: &MessageDeclaration| *m)
}

impl<'a> View for BlockScope<'a> {
    type V = ScopeV;

    open spec fn view(&self) -> ScopeV {
        ScopeV { root: *self.root, file: *self.proto_file, parents: messages_of(self.parent_messages@) }
    }
}

impl<'a> View for IdType<'a> {
    type V = IdTypeV;

    open spec fn view(&self) -> IdTypeV {
        match *self {
            IdType::DataType(d) => IdTypeV::DataType(*d),
            IdType::Package(p) => IdTypeV::Package(*p),
        }
    }
}

impl<'a> View for DefinedId<'a> {
    type V = DefinedIdV;

    open spec fn view(&self) -> DefinedIdV {
        DefinedIdV { scope: self.scope@, declaration: self.declaration@ }
    }
}

/// `<packages joined by "/">/<file name>`.
pub open spec fn full_path_text(f: ProtoFile) -> Seq<char> {
    join(views(f.path@), "/"@) + "/"@ + f.name@
}

/// The locations of a scope, innermost first: the enclosing messages' names, then
/// the file's full path.
pub open spec fn stack_trace_v(s: ScopeV) -> Seq<Seq<char>> {
    s.parents.map_values(|m: MessageDeclaration| m.name@).push(full_path_text(s.file))
}

/// Each location on a line of its own, after `in`.
pub open spec fn trace_lines(locations: Seq<Seq<char>>) -> Seq<char>
    decreases locations.len(),
{
    if locations.len() == 0 {
        Seq::empty()
    } else {
        trace_lines(locations.drop_last()) + "\n  in "@ + locations.last()
    }
}

/// The text of an error raised in a scope: the message, then where.
pub open spec fn scope_error_text(s: ScopeV, message: Seq<char>) -> Seq<char> {
    message + trace_lines(stack_trace_v(s))
}

/// The index of the innermost enclosing message that declares `name`.
pub open spec fn first_parent_declaring(ps: Seq<MessageDeclaration>, name: Seq<char>) -> Option<int>
    decreases ps.len(),
{
    if ps.len() == 0 {
        None
    } else if last_declaration_index(ps[0].entries@, name) is Some {
        Some(0)
    } else {
        match first_parent_declaring(ps.drop_first(), name) {
            Some(i) => Some(i + 1),
            None => None,
        }
    }
}

/// The nested declaration of `m` that `name` names (the last of that name).
pub open spec fn nested_declaration(m: MessageDeclaration, name: Seq<char>) -> Declaration {
    m.entries@[last_declaration_index(m.entries@, name)->0]->Declaration_0
}

/// The package tree an import reaches from a file in package `path`: the import's
/// packages are looked up below the first `k` packages of `path`, for `k` from the
/// given one down to 0, and the first that exists is taken.
pub open spec fn nearest_subtree(root: PackageTree, path: Seq<Seq<char>>, packages: Seq<Seq<char>>, k: nat) -> Option<PackageTree>
    decreases k,
{
    match subtree_at(root, path.take(k as int) + packages) {
        Some(t) => Some(t),
        None => if k == 0 {
            None
        } else {
            nearest_subtree(root, path, packages, (k - 1) as nat)
        },
    }
}

/// The file the first of `imports` that names `name` by its last package and
/// reaches a file gives: `Some(Some(f))`; `Some(None)` where none does; `None` where
/// an import with no package is met before.
pub open spec fn import_resolution(root: PackageTree, file: ProtoFile, imports: Seq<ImportPath>, name: Seq<char>) -> Option<Option<ProtoFile>>
    decreases imports.len(),
{
    if imports.len() == 0 {
        Some(None)
    } else {
        let imp = imports[0];
        let packages = views(imp.packages@);
        if packages.len() == 0 {
            None
        } else if packages.last() != name {
            import_resolution(root, file, imports.drop_first(), name)
        } else {
            let path = views(file.path@);
            match nearest_subtree(root, path, packages, path.len()) {
                Some(t) => match first_file_named(t.files@, imp.file_name@) {
                    Some(i) => Some(Some(t.files@[i])),
                    None => import_resolution(root, file, imports.drop_first(), name),
                },
                None => import_resolution(root, file, imports.drop_first(), name),
            }
        }
    }
}

/// The same scope with no enclosing message.
pub open spec fn file_scope_v(s: ScopeV) -> ScopeV {
    ScopeV { root: s.root, file: s.file, parents: Seq::empty() }
}

/// What `name` resolves to in scope `s`: first in the enclosing messages, innermost
/// first; then among the file's declarations; then through the file's imports.
/// `None` where resolution fails on an import without packages.
pub open spec fn scope_resolve_v(s: ScopeV, name: Seq<char>) -> Option<Result<DefinedIdV, Seq<char>>> {
    match first_parent_declaring(s.parents, name) {
        Some(i) => Some(Ok(DefinedIdV {
            scope: ScopeV { root: s.root, file: s.file, parents: s.parents.subrange(i, s.parents.len() as int) },
            declaration: IdTypeV::DataType(nested_declaration(s.parents[i], name)),
        })),
        None => match first_declaration_index(s.file.declarations@, name) {
            Some(k) => Some(Ok(DefinedIdV {
                scope: file_scope_v(s),
                declaration: IdTypeV::DataType(s.file.declarations@[k]),
            })),
            None => match import_resolution(s.root, s.file, s.file.imports@, name) {
                None => None,
                Some(Some(f)) => Some(Ok(DefinedIdV { scope: file_scope_v(s), declaration: IdTypeV::Package(f) })),
                Some(None) => Some(Err(scope_error_text(s, "Could not resolve name "@ + name))),
            },
        },
    }
}

/// What `name` resolves to inside the resolved `id`: a nested declaration of a
/// message, or a name in an imported file.
pub open spec fn id_resolve_v(id: DefinedIdV, name: Seq<char>) -> Option<Result<DefinedIdV, Seq<char>>> {
    match id.declaration {
        IdTypeV::DataType(Declaration::Enum(e)) => Some(Err(scope_error_text(
            id.scope,
            "Cannot resolve "@ + name + "\n  in "@ + e.name@,
        ))),
        IdTypeV::DataType(Declaration::Message(m)) => match last_declaration_index(m.entries@, name) {
            Some(k) => Some(Ok(DefinedIdV {
                scope: ScopeV { root: id.scope.root, file: id.scope.file, parents: seq![m] + id.scope.parents },
                declaration: IdTypeV::DataType(nested_declaration(m, name)),
            })),
            None => Some(Err(scope_error_text(id.scope, "Cannot resolve "@ + name + "\n  in "@ + m.name@))),
        },
        IdTypeV::Package(p) => scope_resolve_v(
            ScopeV { root: id.scope.root, file: p, parents: Seq::empty() },
            name,
        ),
    }
}

/// What a dotted path resolves to: its first name in the scope, each next one
/// inside what the previous gave.
pub open spec fn path_resolve_v(s: ScopeV, path: Seq<Seq<char>>) -> Option<Result<DefinedIdV, Seq<char>>>
    decreases path.len(),
{
    if path.len() <= 1 {
        scope_resolve_v(s, path[0])
    } else {
        match path_resolve_v(s, path.drop_last()) {
            Some(Ok(id)) => id_resolve_v(id, path.last()),
            other => other,
        }
    }
}

/// `path`'s first `k` names, then `packages`.
fn prefix_and(path: &Vec<String>, k: usize, packages: &Vec<String>) -> (r: Vec<String>)
    requires
        k <= path@.len(),
    ensures
        views(r@) == views(path@).take(k as int) + views(packages@),
{
    let mut r: Vec<String> = Vec::new();
    let mut i: usize = 0;
    while i < k
        invariant
            i <= k <= path@.len(),
            r@ == path@.take(i as int),
        decreases k - i,
    {
        r.push(path[i].clone());
        assert(r@ =~= path@.take(i + 1));
        i = i + 1;
    }
    let mut j: usize = 0;
    while j < packages.len()
        invariant
            j <= packages@.len(),
            r@ == path@.take(k as int) + packages@.take(j as int),
        decreases packages@.len() - j,
    {
        r.push(packages[j].clone());
        assert(r@ =~= path@.take(k as int) + packages@.take(j + 1));
        j = j + 1;
    }
    assert(packages@.take(packages@.len() as int) =~= packages@);
    assert(views(r@) =~= views(path@).take(k as int) + views(packages@));
    r
}

/// The sub-tree an import's `packages` reach from a file in package `path` (see
/// `nearest_subtree`).
fn find_nearest_subtree<'a>(root: &'a PackageTree, path: &Vec<String>, packages: &Vec<String>) -> (r: Option<&'a PackageTree>)
    ensures
        r == (match nearest_subtree(*root, views(path@), views(packages@), path@.len()) {
            Some(t) => Some(&t),
            None => None::<&PackageTree>,
        }),
{
    let mut k: usize = path.len();
    loop
        invariant
            k <= path@.len(),
            nearest_subtree(*root, views(path@), views(packages@), path@.len())
                == nearest_subtree(*root, views(path@), views(packages@), k as nat),
        decreases k,
    {
        let candidate = prefix_and(path, k, packages);
        match root.resolve_subtree(candidate.as_slice()) {
            Some(t) => {
                return Some(t);
            },
            None => {
                if k == 0 {
                    return None;
                }
                k = k - 1;
            },
        }
    }
}

/// The first file of `files` named `name`.
pub(crate) fn find_file<'a>(files: &'a Vec<ProtoFile>, name: &str) -> (r: Option<&'a ProtoFile>)
    ensures
        r == (match first_file_named(files@, name@) {
            Some(i) => Some(&files@[i]),
            None => None::<&ProtoFile>,
        }),
{
    assert(files@.skip(0) =~= files@);
    let mut i: usize = 0;
    while i < files.len()
        invariant
            i <= files@.len(),
            first_file_named(files@, name@) == (match first_file_named(files@.skip(i as int), name@) {
                Some(k) => Some(k + i),
                None => None,
            }),
        decreases files@.len() - i,
    {
        assert(files@.skip(i as int)[0] == files@[i as int]);
        assert(files@.skip(i as int).drop_first() =~= files@.skip(i + 1));
        if str_eq(files[i].name.as_str(), name) {
            return Some(&files[i]);
        }
        i = i + 1;
    }
    None
}

impl<'a> BlockScope<'a> {
    /// The scope of the top level of `proto_file`.
    pub fn new(root: &'a PackageTree, proto_file: &'a ProtoFile) -> (r: BlockScope<'a>)
        ensures
            r@ == (ScopeV { root: *root, file: *proto_file, parents: Seq::empty() }),
    {
        let r = BlockScope { root, proto_file, parent_messages: Vec::new() };
        assert(messages_of(r.parent_messages@) =~= Seq::<MessageDeclaration>::empty());
        r
    }

    /// The scope inside `message`, which this scope encloses.
    pub fn push(&self, message: &'a MessageDeclaration) -> (r: BlockScope<'a>)
        ensures
            r@ == (ScopeV { root: self@.root, file: self@.file, parents: seq![*message] + self@.parents }),
    {
        let mut parent_messages: Vec<&'a MessageDeclaration> = Vec::new();
        parent_messages.push(message);
        let mut i: usize = 0;
        while i < self.parent_messages.len()
            invariant
                i <= self.parent_messages@.len(),
                parent_messages@ == seq![message] + self.parent_messages@.take(i as int),
            decreases self.parent_messages@.len() - i,
        {
            parent_messages.push(self.parent_messages[i]);
            assert(parent_messages@ =~= seq![message] + self.parent_messages@.take(i + 1));
            i = i + 1;
        }
        assert(self.parent_messages@.take(i as int) =~= self.parent_messages@);
        assert(messages_of(parent_messages@) =~= seq![*message] + messages_of(self.parent_messages@));
        BlockScope { root: self.root, proto_file: self.proto_file, parent_messages }
    }
}

/// The path of a scope from the root: its packages, its file, then the enclosing
/// messages, outermost first.
pub open spec fn scope_path_v(s: ScopeV) -> Seq<PathComponentV> {
    views(s.file.path@).map_values(|p: Seq<char>| PathComponentV::Package(p))
        .push(PathComponentV::File(s.file.name@))
        + s.parents.reverse().map_values(|m: MessageDeclaration| PathComponentV::Message(m.name@))
}

impl<'a> BlockScope<'a> {
    /// The path of this scope from the root.
    pub fn path(&self) -> (r: ProtoPath)
        ensures
            r@ == scope_path_v(self@),
    {
        let mut res = ProtoPath::new();
        let ghost packages = views(self.proto_file.path@).map_values(|p: Seq<char>| PathComponentV::Package(p));
        let mut i: usize = 0;
        while i < self.proto_file.path.len()
            invariant
                i <= self.proto_file.path@.len(),
                packages == views(self.proto_file.path@).map_values(|p: Seq<char>| PathComponentV::Package(p)),
                res@ == packages.take(i as int),
            decreases self.proto_file.path@.len() - i,
        {
            res.push(PathComponent::Package(self.proto_file.path[i].clone()));
            assert(res@ =~= packages.take(i + 1));
            i = i + 1;
        }
        assert(packages.take(i as int) =~= packages);
        res.push(PathComponent::File(self.proto_file.name.clone()));
        let ghost head = res@;
        let ghost ms = self@.parents.reverse().map_values(|m: MessageDeclaration| PathComponentV::Message(m.name@));
        let n = self.parent_messages.len();
        let mut j: usize = 0;
        while j < n
            invariant
                j <= n == self.parent_messages@.len(),
                ms == self@.parents.reverse().map_values(|m: MessageDeclaration| PathComponentV::Message(m.name@)),
                res@ == head + ms.take(j as int),
            decreases n - j,
        {
            res.push(PathComponent::Message(self.parent_messages[n - 1 - j].name.clone()));
            assert(ms[j as int] == PathComponentV::Message(self.parent_messages@[n - 1 - j].name@));
            assert(res@ =~= head + ms.take(j + 1));
            j = j + 1;
        }
        assert(ms.take(n as int) =~= ms);
        res
    }

    /// The locations of this scope, innermost first: the enclosing messages' names,
    /// then the file's full path.
    pub fn stack_trace(&self) -> (r: Vec<String>)
        ensures
            views(r@) == stack_trace_v(self@),
    {
        let ghost names = self@.parents.map_values(|m: MessageDeclaration| m.name@);
        let mut res: Vec<String> = Vec::new();
        let mut i: usize = 0;
        while i < self.parent_messages.len()
            invariant
                i <= self.parent_messages@.len(),
                names == self@.parents.map_values(|m: MessageDeclaration| m.name@),
                views(res@) == names.take(i as int),
            decreases self.parent_messages@.len() - i,
        {
            let ghost before = res@;
            res.push(self.parent_messages[i].name.clone());
            assert(res@ == before.push(self.parent_messages@[i as int].name));
            assert(views(res@) =~= views(before).push(self.parent_messages@[i as int].name@));
            assert(self@.parents[i as int] == *self.parent_messages@[i as int]);
            assert(names.take(i + 1) =~= names.take(i as int).push(names[i as int]));
            assert(views(res@) =~= names.take(i + 1));
            i = i + 1;
        }
        assert(names.take(i as int) =~= names);
        let ghost before = res@;
        res.push(self.proto_file.full_path());
        assert(views(res@) =~= views(before).push(full_path_text(*self.proto_file)));
        res
    }

    /// An error with `message`, followed by where in the schema it arose.
    pub fn error(&self, message: &str) -> (r: ProtoError)
        ensures
            r@ == ProtoErrorV::Other(scope_error_text(self@, message@)),
    {
        let trace = self.stack_trace();
        let ghost locations = views(trace@);
        let mut text = message.to_string();
        let mut i: usize = 0;
        while i < trace.len()
            invariant
                i <= trace@.len(),
                locations == views(trace@),
                text@ == message@ + trace_lines(locations.take(i as int)),
            decreases trace@.len() - i,
        {
            text.append("\n  in ");
            text.append(trace[i].as_str());
            assert(locations.take(i + 1).drop_last() =~= locations.take(i as int));
            assert(text@ =~= message@ + trace_lines(locations.take(i + 1)));
            i = i + 1;
        }
        assert(locations.take(i as int) =~= locations);
        ProtoError::Other(text)
    }
}

proof fn lemma_first_parent_declaring_skip(ps: Seq<MessageDeclaration>, name: Seq<char>, i: int)
    requires
        0 <= i < ps.len(),
    ensures
        first_parent_declaring(ps.skip(i), name) == (if last_declaration_index(ps[i].entries@, name) is Some {
            Some(0int)
        } else {
            match first_parent_declaring(ps.skip(i + 1), name) {
                Some(k) => Some(k + 1),
                None => None,
            }
        }),
{
    assert(ps.skip(i)[0] == ps[i]);
    assert(ps.skip(i).drop_first() =~= ps.skip(i + 1));
}

/// Where the search through the enclosing messages stands after the first `i`.
pub open spec fn parents_search_from(ps: Seq<MessageDeclaration>, name: Seq<char>, i: int) -> Option<int> {
    match first_parent_declaring(ps.skip(i), name) {
        Some(k) => Some(k + i),
        None => None,
    }
}

impl<'a> BlockScope<'a> {
    /// The enclosing messages from the `i`-th (innermost first) outwards.
    fn parents_from(&self, i: usize) -> (r: Vec<&'a MessageDeclaration>)
        requires
            i <= self.parent_messages@.len(),
        ensures
            messages_of(r@) == self@.parents.subrange(i as int, self@.parents.len() as int),
    {
        let mut r: Vec<&'a MessageDeclaration> = Vec::new();
        let mut j: usize = i;
        while j < self.parent_messages.len()
            invariant
                i <= j <= self.parent_messages@.len(),
                r@ == self.parent_messages@.subrange(i as int, j as int),
            decreases self.parent_messages@.len() - j,
        {
            r.push(self.parent_messages[j]);
            assert(r@ =~= self.parent_messages@.subrange(i as int, j + 1));
            j = j + 1;
        }
        assert(messages_of(r@) =~= self@.parents.subrange(i as int, self@.parents.len() as int));
        r
    }

    /// What `name` resolves to here: the innermost enclosing message that declares
    /// it, else the file's top-level declaration, else the file of the first import
    /// whose last package is `name` (looked up below this file's packages, the
    /// nearest first); an error where none does.
    pub fn resolve(&self, name: &str) -> (r: Result<DefinedId<'a>, ProtoError>)
        requires
            scope_resolve_v(self@, name@) is Some,
        ensures
            match scope_resolve_v(self@, name@) {
                Some(Ok(v)) => r matches Ok(id) && id@ == v,
                Some(Err(m)) => r matches Err(e) && e@ == ProtoErrorV::Other(m),
                None => false,
            },
    {
        let ghost ps = self@.parents;
        assert(ps.skip(0) =~= ps);
        let mut i: usize = 0;
        while i < self.parent_messages.len()
            invariant
                i <= self.parent_messages@.len(),
                ps == self@.parents,
                first_parent_declaring(ps, name@) == parents_search_from(ps, name@, i as int),
            decreases self.parent_messages@.len() - i,
        {
            proof {
                lemma_first_parent_declaring_skip(ps, name@, i as int);
            }
            let parent: &'a MessageDeclaration = self.parent_messages[i];
            assert(ps[i as int] == *parent);
            match parent.resolve(name) {
                Some(declaration) => {
                    let parent_messages = self.parents_from(i);
                    return Ok(DefinedId {
                        scope: BlockScope { root: self.root, proto_file: self.proto_file, parent_messages },
                        declaration: IdType::DataType(declaration),
                    });
                },
                None => {},
            }
            i = i + 1;
        }
        assert(ps.skip(i as int) =~= Seq::<MessageDeclaration>::empty());
        match self.proto_file.resolve(name) {
            Some(declaration) => {
                return Ok(DefinedId {
                    scope: BlockScope::new(self.root, self.proto_file),
                    declaration: IdType::DataType(declaration),
                });
            },
            None => {},
        }
        let imports = &self.proto_file.imports;
        let ghost all = imports@;
        assert(all.skip(0) =~= all);
        let mut k: usize = 0;
        while k < imports.len()
            invariant
                k <= all.len(),
                all == self.proto_file.imports@,
                imports@ == all,
                first_parent_declaring(self@.parents, name@) is None,
                first_declaration_index(self@.file.declarations@, name@) is None,
                import_resolution(*self.root, *self.proto_file, all, name@)
                    == import_resolution(*self.root, *self.proto_file, all.skip(k as int), name@),
                import_resolution(*self.root, *self.proto_file, all, name@) is Some,
            decreases all.len() - k,
        {
            assert(all.skip(k as int)[0] == all[k as int]);
            assert(all.skip(k as int).drop_first() =~= all.skip(k + 1));
            let imprt = &imports[k];
            let packages = &imprt.packages;
            assert(views(packages@).len() == packages@.len());
            let last = &packages[packages.len() - 1];
            assert(views(packages@).last() == last@);
            assert(views(self.proto_file.path@).len() == self.proto_file.path@.len());
            if str_eq(last.as_str(), name) {
                match find_nearest_subtree(self.root, &self.proto_file.path, packages) {
                    Some(tree) => match find_file(&tree.files, imprt.file_name.as_str()) {
                        Some(file) => {
                            return Ok(DefinedId {
                                scope: BlockScope::new(self.root, self.proto_file),
                                declaration: IdType::Package(file),
                            });
                        },
                        None => {},
                    },
                    None => {},
                }
            }
            k = k + 1;
        }
        let mut message = "Could not resolve name ".to_string();
        message.append(name);
        Err(self.error(message.as_str()))
    }
}

/// The path of a resolved name from the root: its scope's path, then the name.
pub open spec fn defined_id_path_v(id: DefinedIdV) -> Seq<PathComponentV> {
    scope_path_v(id.scope).push(
        match id.declaration {
            IdTypeV::DataType(Declaration::Enum(e)) => PathComponentV::Enum(e.name@),
            IdTypeV::DataType(Declaration::Message(m)) => PathComponentV::Message(m.name@),
            IdTypeV::Package(p) => PathComponentV::Package(p.name@),
        },
    )
}

impl<'a> DefinedId<'a> {
    /// What `name` resolves to inside this one: a nested declaration of a message
    /// (an error for an enum, or a message without it), or a name in an imported file.
    pub fn resolve(&self, name: &str) -> (r: Result<DefinedId<'a>, ProtoError>)
        requires
            id_resolve_v(self@, name@) is Some,
        ensures
            match id_resolve_v(self@, name@) {
                Some(Ok(v)) => r matches Ok(id) && id@ == v,
                Some(Err(m)) => r matches Err(e) && e@ == ProtoErrorV::Other(m),
                None => false,
            },
    {
        match self.declaration {
            IdType::DataType(decl) => match decl {
                Declaration::Enum(e) => {
                    let mut message = "Cannot resolve ".to_string();
                    message.append(name);
                    message.append("\n  in ");
                    message.append(e.name.as_str());
                    Err(self.scope.error(message.as_str()))
                },
                Declaration::Message(m) => match m.resolve(name) {
                    Some(declaration) => Ok(DefinedId {
                        declaration: IdType::DataType(declaration),
                        scope: self.scope.push(m),
                    }),
                    None => {
                        let mut message = "Cannot resolve ".to_string();
                        message.append(name);
                        message.append("\n  in ");
                        message.append(m.name.as_str());
                        Err(self.scope.error(message.as_str()))
                    },
                },
            },
            IdType::Package(p) => {
                let package_block_scope = BlockScope::new(self.scope.root, p);
                package_block_scope.resolve(name)
            },
        }
    }

    /// The path of this name from the root.
    pub fn path(&self) -> (r: ProtoPath)
        ensures
            r@ == defined_id_path_v(self@),
    {
        let mut res = self.scope.path();
        match self.declaration {
            IdType::DataType(decl) => match decl {
                Declaration::Enum(e) => res.push(PathComponent::Enum(e.name.clone())),
                Declaration::Message(m) => res.push(PathComponent::Message(m.name.clone())),
            },
            IdType::Package(p) => res.push(PathComponent::Package(p.name.clone())),
        }
        res
    }
}

/// Once a step of a dotted path fails, what the path resolves to is that failure.
pub proof fn lemma_path_failure_stays(s: ScopeV, p: Seq<Seq<char>>, i: int, j: int)
    requires
        1 <= i <= j <= p.len(),
        !(path_resolve_v(s, p.take(i)) matches Some(Ok(_))),
    ensures
        path_resolve_v(s, p.take(j)) == path_resolve_v(s, p.take(i)),
    decreases j - i,
{
    if j > i {
        lemma_path_failure_stays(s, p, i, j - 1);
        assert(p.take(j).drop_last() =~= p.take(j - 1));
    }
}

impl<'a> BlockScope<'a> {
    /// What the dotted path `path` resolves to from here: its first name here, each
    /// next one inside what the previous gave.
    pub fn resolve_path(&self, path: &Vec<String>) -> (r: Result<DefinedId<'a>, ProtoError>)
        requires
            path@.len() > 0,
            path_resolve_v(self@, views(path@)) is Some,
        ensures
            match path_resolve_v(self@, views(path@)) {
                Some(Ok(v)) => r matches Ok(id) && id@ == v,
                Some(Err(m)) => r matches Err(e) && e@ == ProtoErrorV::Other(m),
                None => false,
            },
    {
        let ghost p = views(path@);
        assert(p.take(p.len() as int) =~= p);
        assert(p.take(1)[0] == p[0]);
        proof {
            if !(path_resolve_v(self@, p.take(1)) matches Some(Ok(_))) {
                lemma_path_failure_stays(self@, p, 1, p.len() as int);
            }
        }
        let mut resolution = match self.resolve(path[0].as_str()) {
            Ok(id) => id,
            Err(e) => {
                return Err(e);
            },
        };
        let mut i: usize = 1;
        while i < path.len()
            invariant
                1 <= i <= path@.len(),
                p == views(path@),
                p.take(p.len() as int) == p,
                path_resolve_v(self@, p) is Some,
                path_resolve_v(self@, p.take(i as int)) == Some(Ok::<DefinedIdV, Seq<char>>(resolution@)),
            decreases path@.len() - i,
        {
            assert(p.take(i + 1).drop_last() =~= p.take(i as int));
            assert(p.take(i + 1).last() == path@[i as int]@);
            proof {
                if !(path_resolve_v(self@, p.take(i + 1)) matches Some(Ok(_))) {
                    lemma_path_failure_stays(self@, p, i + 1, p.len() as int);
                }
            }
            resolution = match resolution.resolve(path[i].as_str()) {
                Ok(id) => id,
                Err(e) => {
                    return Err(e);
                },
            };
            i = i + 1;
        }
        Ok(resolution)
    }
}

} // verus!
