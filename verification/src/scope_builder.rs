//! Building the scope tree from parsed files, and resolving the field types of each
//! message by name.
//!
//! The tree is kept in an arena: node 0 is the root, and each other node records
//! the index of its parent, which is smaller than its own, and its children.
use vstd::prelude::*;
use crate::error::{ProtoError, ProtoErrorV};
use crate::package::{
    FieldV, MessageEntryV, Declaration, EnumDeclaration, Field, FieldDeclaration, FieldTypeReference, ImportPath,
    MessageDeclaration, MessageDeclarationEntry, MessageEntry, OneOfDeclaration, OneOfGroup, ProtoFile,
    Type, TypeV, TypeRefV, trivial_resolution, attributes_view,
};
use crate::proto_scope::{
    lemma_scopes_view_push, EnumScope, FileScope, MessageScope, PackageScope, ProtoScope, ProtoScopeV, RootScope, scopes_view,
};
use crate::text::{join, views, str_eq, copy_strings};
use crate::id_generator::IdGenerator;
use std::collections::HashMap;
use crate::well_known::{
    create_well_known_file, is_well_known_file_name, well_known_declarations, well_known_packages,
};

verus! {

/// A field of a message, or a group of alternatives.
#[derive(Debug)]
pub enum FieldOrOneOf {
    OneOf(OneOfDeclaration),
    Field(FieldDeclaration),
}

/// What a node of the tree is.
#[derive(Debug)]
pub enum ScopeData {
    Root,
    Package(String),
    File(String, Vec<ImportPath>),
    Enum(EnumDeclaration),
    Message(usize, String, Vec<FieldOrOneOf>),
}

/// A node of the tree.
#[derive(Debug)]
pub struct ScopeNode {
    pub data: ScopeData,
    pub parent: Option<usize>,
    pub children: Vec<usize>,
}

/// The tree under construction.
#[derive(Debug)]
pub struct ScopeBuilder {
    pub nodes: Vec<ScopeNode>,
}

/// The name of a node; the root has none.
pub open spec fn node_name(n: ScopeNode) -> Option<Seq<char>> {
    match n.data {
        ScopeData::Root => None,
        ScopeData::Package(s) => Some(s@),
        ScopeData::File(s, _) => Some(s@),
        ScopeData::Enum(e) => Some(e.name@),
        ScopeData::Message(_, s, _) => Some(s@),
    }
}

/// The type a node declares: an enum or a message, by id.
pub open spec fn node_type(n: ScopeNode) -> Option<TypeV> {
    match n.data {
        ScopeData::Enum(e) => Some(TypeV::Enum(e.id as nat)),
        ScopeData::Message(id, _, _) => Some(TypeV::Message(id as nat)),
        _ => None,
    }
}

/// Node 0 is the root; every other node has a parent before it; children come after
/// their parent.
pub open spec fn nodes_wf(nodes: Seq<ScopeNode>) -> bool {
    &&& nodes.len() > 0
    &&& nodes[0].data is Root
    &&& nodes[0].parent is None
    &&& forall|i: int| 1 <= i < nodes.len() ==> (#[trigger] nodes[i].parent matches Some(p) && p < i) && !(nodes[i].data is Root)
    &&& forall|i: int, j: int| 0 <= i < nodes.len() && 0 <= j < nodes[i].children@.len() ==> i < #[trigger] nodes[i].children@[j] < nodes.len()
}

/// The children of `cs` named `name`, in order.
pub open spec fn named_among(nodes: Seq<ScopeNode>, cs: Seq<usize>, name: Seq<char>) -> Seq<usize>
    decreases cs.len(),
{
    if cs.len() == 0 {
        Seq::empty()
    } else {
        let rest = named_among(nodes, cs.drop_last(), name);
        if node_name(nodes[cs.last() as int]) == Some(name) {
            rest.push(cs.last())
        } else {
            rest
        }
    }
}

proof fn lemma_named_among(nodes: Seq<ScopeNode>, cs: Seq<usize>, name: Seq<char>)
    ensures
        forall|k: int| 0 <= k < named_among(nodes, cs, name).len() ==> cs.contains(#[trigger] named_among(nodes, cs, name)[k]),
    decreases cs.len(),
{
    if cs.len() > 0 {
        lemma_named_among(nodes, cs.drop_last(), name);
        let rest = named_among(nodes, cs.drop_last(), name);
        assert forall|k: int| 0 <= k < named_among(nodes, cs, name).len() implies cs.contains(#[trigger] named_among(nodes, cs, name)[k]) by {
            if k < rest.len() {
                let x = rest[k];
                assert(cs.drop_last().contains(x));
                let q = choose|q: int| 0 <= q < cs.drop_last().len() && cs.drop_last()[q] == x;
                assert(cs[q] == x);
            } else {
                assert(cs[cs.len() - 1] == cs.last());
            }
        }
    }
}

/// The names from the root down to a node.
pub open spec fn node_path(nodes: Seq<ScopeNode>, i: int) -> Seq<Seq<char>>
    decreases i,
{
    let above: Seq<Seq<char>> = match nodes[i].parent {
        Some(p) => if 0 <= p < i { node_path(nodes, p as int) } else { Seq::empty() },
        None => Seq::empty(),
    };
    match node_name(nodes[i]) {
        Some(n) => above.push(n),
        None => above,
    }
}

/// The node that `path` leads to from `i`, one name per level; where several children
/// have the name, the first that leads somewhere.
pub open spec fn node_by_path(nodes: Seq<ScopeNode>, i: int, path: Seq<Seq<char>>) -> Option<usize>
    decreases path.len(), 0int, 0int,
{
    if path.len() == 0 {
        None
    } else {
        let cands = named_among(nodes, nodes[i].children@, path[0]);
        if path.len() == 1 {
            if cands.len() == 0 { None } else { Some(cands[0]) }
        } else {
            first_by_path(nodes, cands, path.drop_first())
        }
    }
}

/// The first of `cands` from which `rest` leads somewhere.
pub open spec fn first_by_path(nodes: Seq<ScopeNode>, cands: Seq<usize>, rest: Seq<Seq<char>>) -> Option<usize>
    decreases rest.len(), 1int, cands.len(),
{
    if cands.len() == 0 {
        None
    } else {
        match node_by_path(nodes, cands[0] as int, rest) {
            Some(x) => Some(x),
            None => first_by_path(nodes, cands.drop_first(), rest),
        }
    }
}

/// Whether the names up to node `i` end with `full_path`; a file does not count.
pub open spec fn node_matches(nodes: Seq<ScopeNode>, i: int, full_path: Seq<Seq<char>>) -> bool
    decreases i,
{
    let parent_matches = |fp: Seq<Seq<char>>| match nodes[i].parent {
        Some(p) => if 0 <= p < i { node_matches(nodes, p as int, fp) } else { false },
        None => false,
    };
    match nodes[i].data {
        ScopeData::Root => false,
        ScopeData::File(_, _) => parent_matches(full_path),
        _ => if full_path.len() == 0 {
            false
        } else if full_path.len() == 1 {
            node_name(nodes[i]) == Some(full_path[0])
        } else {
            node_name(nodes[i]) == Some(full_path.last()) && parent_matches(full_path.drop_last())
        },
    }
}

/// The enums and messages under node `i`: each child that is one, then those under it.
pub open spec fn node_declarations(nodes: Seq<ScopeNode>, i: int) -> Seq<usize>
    decreases nodes.len() - i, 1int, 0int,
{
    declarations_of_children(nodes, i, nodes[i].children@)
}

/// The enums and messages among and under `cs`, children of `i`.
pub open spec fn declarations_of_children(nodes: Seq<ScopeNode>, i: int, cs: Seq<usize>) -> Seq<usize>
    decreases nodes.len() - i, 0int, cs.len(),
{
    if cs.len() == 0 {
        Seq::empty()
    } else {
        let c = cs.last();
        let own: Seq<usize> = if node_type(nodes[c as int]) is Some { seq![c] } else { Seq::empty() };
        let below: Seq<usize> = if i < c < nodes.len() { node_declarations(nodes, c as int) } else { Seq::empty() };
        declarations_of_children(nodes, i, cs.drop_last()) + own + below
    }
}

impl ScopeData {
    /// The name; the root has none.
    pub fn name(&self) -> (r: Option<String>)
        ensures
            r matches Some(s) ==> self !is Root,
            match *self {
                ScopeData::Root => r is None,
                ScopeData::Package(s) => r matches Some(n) && n@ == s@,
                ScopeData::File(s, _) => r matches Some(n) && n@ == s@,
                ScopeData::Enum(e) => r matches Some(n) && n@ == e.name@,
                ScopeData::Message(_, s, _) => r matches Some(n) && n@ == s@,
            },
    {
        match self {
            ScopeData::Root => None,
            ScopeData::Package(p) => Some(p.clone()),
            ScopeData::File(f, _) => Some(f.clone()),
            ScopeData::Enum(e) => Some(e.name.clone()),
            ScopeData::Message(_, m, _) => Some(m.clone()),
        }
    }

    /// The id of an enum or a message.
    pub fn id(&self) -> (r: Option<usize>)
        ensures
            r == match *self {
                ScopeData::Enum(e) => Some(e.id),
                ScopeData::Message(id, _, _) => Some(id),
                _ => None::<usize>,
            },
    {
        match self {
            ScopeData::Enum(e) => Some(e.id),
            ScopeData::Message(id, _, _) => Some(*id),
            _ => None,
        }
    }

    /// Whether this is the root.
    pub fn is_root(&self) -> (r: bool)
        ensures
            r == (*self is Root),
    {
        matches!(self, ScopeData::Root)
    }

    /// Whether this is a package.
    pub fn is_package(&self) -> (r: bool)
        ensures
            r == (*self is Package),
    {
        matches!(self, ScopeData::Package(_))
    }

    /// Whether this is a file.
    pub fn is_file(&self) -> (r: bool)
        ensures
            r == (*self is File),
    {
        matches!(self, ScopeData::File(_, _))
    }

    /// Whether this is an enum.
    pub fn is_enum(&self) -> (r: bool)
        ensures
            r == (*self is Enum),
    {
        matches!(self, ScopeData::Enum(_))
    }

    /// Whether this is a message.
    pub fn is_message(&self) -> (r: bool)
        ensures
            r == (*self is Message),
    {
        matches!(self, ScopeData::Message(_, _, _))
    }
}

impl ScopeBuilder {
    /// Whether the arena is a tree (see `nodes_wf`).
    pub open spec fn wf(&self) -> bool {
        nodes_wf(self.nodes@)
    }

    /// A tree with the root alone.
    pub fn new() -> (r: ScopeBuilder)
        ensures
            r.wf(),
            r.nodes@.len() == 1,
            r.nodes@[0].children@.len() == 0,
    {
        let mut nodes: Vec<ScopeNode> = Vec::new();
        nodes.push(ScopeNode { data: ScopeData::Root, parent: None, children: Vec::new() });
        ScopeBuilder { nodes }
    }

    /// Whether node `node` is the root.
    pub fn is_root(&self, node: usize) -> (r: bool)
        requires
            node < self.nodes@.len(),
        ensures
            r == (self.nodes@[node as int].data is Root),
    {
        self.nodes[node].data.is_root()
    }

    /// Whether node `node` is a package.
    pub fn is_package(&self, node: usize) -> (r: bool)
        requires
            node < self.nodes@.len(),
        ensures
            r == (self.nodes@[node as int].data is Package),
    {
        self.nodes[node].data.is_package()
    }

    /// Whether node `node` is a file.
    pub fn is_file(&self, node: usize) -> (r: bool)
        requires
            node < self.nodes@.len(),
        ensures
            r == (self.nodes@[node as int].data is File),
    {
        self.nodes[node].data.is_file()
    }

    /// Whether node `node` is an enum.
    pub fn is_enum(&self, node: usize) -> (r: bool)
        requires
            node < self.nodes@.len(),
        ensures
            r == (self.nodes@[node as int].data is Enum),
    {
        self.nodes[node].data.is_enum()
    }

    /// Whether node `node` is a message.
    pub fn is_message(&self, node: usize) -> (r: bool)
        requires
            node < self.nodes@.len(),
        ensures
            r == (self.nodes@[node as int].data is Message),
    {
        self.nodes[node].data.is_message()
    }

    /// The id of node `node`, where it is an enum or a message.
    pub fn id(&self, node: usize) -> (r: Option<usize>)
        requires
            node < self.nodes@.len(),
        ensures
            r == match self.nodes@[node as int].data {
                ScopeData::Enum(e) => Some(e.id),
                ScopeData::Message(id, _, _) => Some(id),
                _ => None::<usize>,
            },
    {
        self.nodes[node].data.id()
    }

    /// The name of node `node`.
    pub fn name(&self, node: usize) -> (r: Option<String>)
        requires
            node < self.nodes@.len(),
        ensures
            match node_name(self.nodes@[node as int]) {
                Some(n) => r matches Some(s) && s@ == n,
                None => r is None,
            },
    {
        self.nodes[node].data.name()
    }

    /// The type node `node` declares.
    pub fn get_type(&self, node: usize) -> (r: Option<Type>)
        requires
            node < self.nodes@.len(),
        ensures
            match node_type(self.nodes@[node as int]) {
                Some(t) => r matches Some(x) && x@ == t,
                None => r is None,
            },
    {
        match &self.nodes[node].data {
            ScopeData::Enum(e) => Some(Type::Enum(e.id)),
            ScopeData::Message(id, _, _) => Some(Type::Message(*id)),
            _ => None,
        }
    }

    /// Whether node `node` is the package `package_name`.
    pub fn is_package_with_name(&self, node: usize, package_name: &str) -> (r: bool)
        requires
            node < self.nodes@.len(),
        ensures
            r == (self.nodes@[node as int].data matches ScopeData::Package(n) && n@ == package_name@),
    {
        match &self.nodes[node].data {
            ScopeData::Package(n) => str_eq(n.as_str(), package_name),
            _ => false,
        }
    }

    /// Whether node `node` is the file `name`.
    pub fn is_file_with_name(&self, node: usize, name: &str) -> (r: bool)
        requires
            node < self.nodes@.len(),
        ensures
            r == (self.nodes@[node as int].data matches ScopeData::File(n, _) && n@ == name@),
    {
        match &self.nodes[node].data {
            ScopeData::File(n, _) => str_eq(n.as_str(), name),
            _ => false,
        }
    }

    /// The children of node `node` named `searched_name`, in order.
    pub fn resolve_child_by_name(&self, node: usize, searched_name: &str) -> (r: Vec<usize>)
        requires
            self.wf(),
            node < self.nodes@.len(),
        ensures
            r@ == named_among(self.nodes@, self.nodes@[node as int].children@, searched_name@),
            forall|k: int| 0 <= k < r@.len() ==> node < #[trigger] r@[k] < self.nodes@.len(),
    {
        let ghost cs = self.nodes@[node as int].children@;
        let mut res: Vec<usize> = Vec::new();
        let mut i: usize = 0;
        let n = self.nodes[node].children.len();
        while i < n
            invariant
                self.wf(),
                node < self.nodes@.len(),
                cs == self.nodes@[node as int].children@,
                n == cs.len(),
                i <= n,
                res@ == named_among(self.nodes@, cs.take(i as int), searched_name@),
            decreases n - i,
        {
            let child = self.nodes[node].children[i];
            assert(cs.take(i + 1).drop_last() =~= cs.take(i as int));
            assert(child < self.nodes@.len());
            let matches = match self.nodes[child].data.name() {
                Some(name) => str_eq(name.as_str(), searched_name),
                None => false,
            };
            if matches {
                res.push(child);
            }
            i = i + 1;
        }
        assert(cs.take(n as int) =~= cs);
        proof {
            lemma_named_among(self.nodes@, cs, searched_name@);
            assert forall|k: int| 0 <= k < res@.len() implies node < #[trigger] res@[k] < self.nodes@.len() by {
                assert(cs.contains(res@[k]));
            }
        }
        res
    }

    /// The names from the root down to node `node`.
    pub fn path(&self, node: usize) -> (r: Vec<String>)
        requires
            self.wf(),
            node < self.nodes@.len(),
        ensures
            views(r@) == node_path(self.nodes@, node as int),
        decreases node,
    {
        let mut res = match self.nodes[node].parent {
            Some(p) => {
                if p < node {
                    self.path(p)
                } else {
                    Vec::new()
                }
            },
            None => Vec::new(),
        };
        assert(views(res@) =~= match self.nodes@[node as int].parent {
            Some(p) => if 0 <= p < node { node_path(self.nodes@, p as int) } else { Seq::<Seq<char>>::empty() },
            None => Seq::<Seq<char>>::empty(),
        });
        match self.nodes[node].data.name() {
            Some(name) => {
                let ghost before = views(res@);
                res.push(name);
                assert(views(res@) =~= before.push(name@));
            },
            None => {},
        }
        res
    }

    /// The node that `path` leads to from node `node`.
    pub fn get_by_path(&self, node: usize, path: &[String]) -> (r: Option<usize>)
        requires
            self.wf(),
            node < self.nodes@.len(),
        ensures
            r == node_by_path(self.nodes@, node as int, views(path@)),
            r matches Some(x) ==> x < self.nodes@.len(),
        decreases path@.len(),
    {
        if path.len() == 0 {
            return None;
        }
        let ghost pv = views(path@);
        let resolved_children = self.resolve_child_by_name(node, path[0].as_str());
        if path.len() == 1 {
            if resolved_children.len() == 0 {
                return None;
            }
            return Some(resolved_children[0]);
        }
        let rest = slice_rest(path);
        assert(views(rest@) =~= pv.drop_first());
        let ghost cands = resolved_children@;
        let mut k: usize = 0;
        assert(cands.skip(0) =~= cands);
        while k < resolved_children.len()
            invariant
                self.wf(),
                k <= cands.len(),
                cands == resolved_children@,
                forall|q: int| 0 <= q < cands.len() ==> node < #[trigger] cands[q] < self.nodes@.len(),
                pv == views(path@),
                pv.len() >= 2,
                node < self.nodes@.len(),
                node_by_path(self.nodes@, node as int, pv) == first_by_path(self.nodes@, cands, pv.drop_first()),
                views(rest@) == pv.drop_first(),
                rest@.len() < path@.len(),
                first_by_path(self.nodes@, cands, pv.drop_first()) == first_by_path(self.nodes@, cands.skip(k as int), pv.drop_first()),
            decreases cands.len() - k,
        {
            assert(cands.skip(k as int)[0] == cands[k as int]);
            assert(cands.skip(k as int).drop_first() =~= cands.skip(k + 1));
            let result = self.get_by_path(resolved_children[k], rest);
            if result.is_some() {
                return result;
            }
            k = k + 1;
        }
        None
    }

    /// The node that `path` leads to from the root.
    pub fn get_builder_by_absolute_path(&self, path: &[String]) -> (r: Option<usize>)
        requires
            self.wf(),
        ensures
            r == node_by_path(self.nodes@, 0, views(path@)),
            r matches Some(x) ==> x < self.nodes@.len(),
    {
        self.get_by_path(0, path)
    }

    /// Whether the names up to node `node` end with `full_path` (see `node_matches`).
    pub fn matches(&self, node: usize, full_path: &[String]) -> (r: bool)
        requires
            self.wf(),
            node < self.nodes@.len(),
        ensures
            r == node_matches(self.nodes@, node as int, views(full_path@)),
        decreases node,
    {
        let ghost fp = views(full_path@);
        if self.is_root(node) {
            return false;
        }
        if self.is_file(node) {
            return match self.nodes[node].parent {
                Some(p) => if p < node { self.matches(p, full_path) } else { false },
                None => false,
            };
        }
        if full_path.len() == 0 {
            return false;
        }
        let self_name = match self.name(node) {
            Some(n) => n,
            None => return false,
        };
        if full_path.len() == 1 {
            return str_eq(self_name.as_str(), full_path[0].as_str());
        }
        let last = full_path.len() - 1;
        let prefix = slice_prefix(full_path, last);
        assert(views(prefix@) =~= fp.drop_last());
        str_eq(full_path[last].as_str(), self_name.as_str()) && match self.nodes[node].parent {
            Some(p) => if p < node { self.matches(p, prefix) } else { false },
            None => false,
        }
    }

    /// The enums and messages under node `node` (see `node_declarations`).
    pub fn get_all_declaration_builders(&self, node: usize) -> (r: Vec<usize>)
        requires
            self.wf(),
            node < self.nodes@.len(),
        ensures
            r@ == node_declarations(self.nodes@, node as int),
            forall|k: int| 0 <= k < r@.len() ==> #[trigger] r@[k] < self.nodes@.len(),
        decreases self.nodes@.len() - node,
    {
        let ghost cs = self.nodes@[node as int].children@;
        let n = self.nodes[node].children.len();
        let mut res: Vec<usize> = Vec::new();
        let mut i: usize = 0;
        while i < n
            invariant
                self.wf(),
                node < self.nodes@.len(),
                cs == self.nodes@[node as int].children@,
                n == cs.len(),
                i <= n,
                res@ == declarations_of_children(self.nodes@, node as int, cs.take(i as int)),
                forall|k: int| 0 <= k < res@.len() ==> #[trigger] res@[k] < self.nodes@.len(),
            decreases n - i,
        {
            let child = self.nodes[node].children[i];
            assert(cs.take(i + 1).drop_last() =~= cs.take(i as int));
            assert(cs.take(i + 1).last() == child);
            assert(node < child < self.nodes@.len());
            if self.is_message(child) || self.is_enum(child) {
                res.push(child);
            }
            let below = self.get_all_declaration_builders(child);
            let mut q: usize = 0;
            let ghost mid = res@;
            while q < below.len()
                invariant
                    q <= below@.len(),
                    res@ == mid + below@.take(q as int),
                    forall|k: int| 0 <= k < mid.len() ==> #[trigger] mid[k] < self.nodes@.len(),
                    forall|k: int| 0 <= k < below@.len() ==> #[trigger] below@[k] < self.nodes@.len(),
                    forall|k: int| 0 <= k < res@.len() ==> #[trigger] res@[k] < self.nodes@.len(),
                decreases below@.len() - q,
            {
                res.push(below[q]);
                assert(res@ =~= mid + below@.take(q + 1));
                q = q + 1;
            }
            assert(below@.take(below@.len() as int) =~= below@);
            i = i + 1;
        }
        assert(cs.take(n as int) =~= cs);
        res
    }
}

/// `path[1..]`.
pub(crate) fn slice_rest(path: &[String]) -> (r: &[String])
    requires
        path@.len() > 0,
    ensures
        r@ == path@.drop_first(),
{
    let (_, rest) = path.split_at(1);
    assert(rest@ =~= path@.drop_first());
    rest
}

/// `path[..n]`.
fn slice_prefix(path: &[String], n: usize) -> (r: &[String])
    requires
        n <= path@.len(),
    ensures
        r@ == path@.take(n as int),
{
    let (first, _) = path.split_at(n);
    first
}


/// The type that `full_path` names among the descendants of node `i`, one name per
/// level; where several children have a name, the first through which it resolves.
pub open spec fn in_direct_children(nodes: Seq<ScopeNode>, i: int, full_path: Seq<Seq<char>>) -> Option<TypeV>
    decreases full_path.len(), 0int, 0int,
{
    if full_path.len() == 0 {
        None
    } else {
        let cands = named_among(nodes, nodes[i].children@, full_path[0]);
        if full_path.len() == 1 {
            if cands.len() == 0 { None } else { node_type(nodes[cands[0] as int]) }
        } else {
            first_in_direct_children(nodes, cands, full_path.drop_first())
        }
    }
}

/// The first resolution of `rest` under one of `cands`.
pub open spec fn first_in_direct_children(nodes: Seq<ScopeNode>, cands: Seq<usize>, rest: Seq<Seq<char>>) -> Option<TypeV>
    decreases rest.len(), 1int, cands.len(),
{
    if cands.len() == 0 {
        None
    } else {
        match in_direct_children(nodes, cands[0] as int, rest) {
            Some(t) => Some(t),
            None => first_in_direct_children(nodes, cands.drop_first(), rest),
        }
    }
}

/// The type `full_path` names when it starts with the name of node `i` itself.
pub open spec fn in_itself(nodes: Seq<ScopeNode>, i: int, full_path: Seq<Seq<char>>) -> Option<TypeV> {
    if full_path.len() == 0 {
        None
    } else {
        match node_name(nodes[i]) {
            Some(n) => if n == full_path[0] {
                if full_path.len() == 1 {
                    node_type(nodes[i])
                } else {
                    in_direct_children(nodes, i, full_path.drop_first())
                }
            } else {
                None
            },
            None => None,
        }
    }
}

/// The type `full_path` names from the enclosing messages of node `i`, innermost first,
/// up to its file.
pub open spec fn in_parents_until_file(nodes: Seq<ScopeNode>, i: int, full_path: Seq<Seq<char>>) -> Option<TypeV>
    decreases i,
{
    match nodes[i].data {
        ScopeData::Root => None,
        ScopeData::Package(_) => None,
        ScopeData::File(_, _) => None,
        _ => match nodes[i].parent {
            Some(p) => if 0 <= p < i {
                match in_direct_children(nodes, p as int, full_path) {
                    Some(t) => Some(t),
                    None => match in_itself(nodes, p as int, full_path) {
                        Some(t) => Some(t),
                        None => in_parents_until_file(nodes, p as int, full_path),
                    },
                }
            } else {
                None
            },
            None => None,
        },
    }
}

/// The type `full_path` names from node `i` within its own file.
pub open spec fn in_file(nodes: Seq<ScopeNode>, i: int, full_path: Seq<Seq<char>>) -> Option<TypeV> {
    match in_direct_children(nodes, i, full_path) {
        Some(t) => Some(t),
        None => match in_itself(nodes, i, full_path) {
            Some(t) => Some(t),
            None => in_parents_until_file(nodes, i, full_path),
        },
    }
}

/// The path of the first of `cands` that is a file.
pub open spec fn first_file_path(nodes: Seq<ScopeNode>, cands: Seq<usize>) -> Option<Seq<Seq<char>>>
    decreases cands.len(),
{
    if cands.len() == 0 {
        None
    } else if nodes[cands[0] as int].data is File {
        Some(node_path(nodes, cands[0] as int))
    } else {
        first_file_path(nodes, cands.drop_first())
    }
}

/// The path of the file that an import of `packages`/`file_name` names from node `i`:
/// looked up below `i`, then from its parent, and so on up to the root.
pub open spec fn import_target(nodes: Seq<ScopeNode>, i: int, packages: Seq<Seq<char>>, file_name: Seq<char>) -> Option<Seq<Seq<char>>>
    decreases packages.len(), i, 1int, 0int,
{
    if packages.len() == 0 {
        first_file_path(nodes, named_among(nodes, nodes[i].children@, file_name))
    } else {
        let cands = named_among(nodes, nodes[i].children@, packages[0]);
        match first_import_target(nodes, cands, packages.drop_first(), file_name) {
            Some(x) => Some(x),
            None => match nodes[i].parent {
                Some(p) => if 0 <= p < i { import_target(nodes, p as int, packages, file_name) } else { None },
                None => None,
            },
        }
    }
}

/// The first target of the import found under one of `cands`.
pub open spec fn first_import_target(nodes: Seq<ScopeNode>, cands: Seq<usize>, packages: Seq<Seq<char>>, file_name: Seq<char>) -> Option<Seq<Seq<char>>>
    decreases packages.len(), nodes.len(), 0int, cands.len(),
{
    if cands.len() == 0 {
        None
    } else if 0 <= cands[0] < nodes.len() {
        match import_target(nodes, cands[0] as int, packages, file_name) {
            Some(x) => Some(x),
            None => first_import_target(nodes, cands.drop_first(), packages, file_name),
        }
    } else {
        None
    }
}

/// How an import is written in messages: `<packages joined by "/">/<file name>`.
pub open spec fn import_text(imp: ImportPath) -> Seq<char> {
    join(views(imp.packages@), "/"@) + "/"@ + imp.file_name@
}

/// The targets of the first `n` imports, or the message of the first that fails.
pub open spec fn imports_resolved(nodes: Seq<ScopeNode>, i: int, imports: Seq<ImportPath>) -> Result<Seq<Seq<Seq<char>>>, Seq<char>>
    decreases imports.len(),
{
    if imports.len() == 0 {
        Ok(Seq::empty())
    } else {
        match imports_resolved(nodes, i, imports.drop_last()) {
            Err(e) => Err(e),
            Ok(v) => match import_target(nodes, i, views(imports.last().packages@), imports.last().file_name@) {
                Some(p) => Ok(v.push(p)),
                None => Err("Cannot resolve import "@ + import_text(imports.last())),
            },
        }
    }
}

/// The files imported by the file that holds node `i`.
pub open spec fn node_imports(nodes: Seq<ScopeNode>, i: int) -> Result<Seq<Seq<Seq<char>>>, Seq<char>>
    decreases i,
{
    match nodes[i].data {
        ScopeData::Root => Ok(Seq::empty()),
        ScopeData::Package(_) => Ok(Seq::empty()),
        ScopeData::File(_, imports) => imports_resolved(nodes, i, imports@),
        _ => match nodes[i].parent {
            Some(p) => if 0 <= p < i { node_imports(nodes, p as int) } else { Ok(Seq::empty()) },
            None => Ok(Seq::empty()),
        },
    }
}

/// The type of the first of `decls` whose names end with `full_path`.
pub open spec fn first_matching(nodes: Seq<ScopeNode>, decls: Seq<usize>, full_path: Seq<Seq<char>>) -> Option<TypeV>
    decreases decls.len(),
{
    if decls.len() == 0 {
        None
    } else if node_matches(nodes, decls[0] as int, full_path) {
        node_type(nodes[decls[0] as int])
    } else {
        first_matching(nodes, decls.drop_first(), full_path)
    }
}

/// The type `full_path` names in the first of the imported files that declares it.
pub open spec fn in_imported_files(nodes: Seq<ScopeNode>, imports: Seq<Seq<Seq<char>>>, full_path: Seq<Seq<char>>) -> Result<Option<TypeV>, Seq<char>>
    decreases imports.len(),
{
    if imports.len() == 0 {
        Ok(None)
    } else {
        match node_by_path(nodes, 0, imports[0]) {
            None => Err("Cannot find imported file "@ + join(imports[0], "/"@)),
            Some(f) => match first_matching(nodes, node_declarations(nodes, f as int), full_path) {
                Some(t) => Ok(Some(t)),
                None => in_imported_files(nodes, imports.drop_first(), full_path),
            },
        }
    }
}

/// The name of a node, or nothing for the root.
pub open spec fn name_or_empty(n: ScopeNode) -> Seq<char> {
    match node_name(n) {
        Some(s) => s,
        None => Seq::empty(),
    }
}

/// The type a name path denotes from node `i`: within its file first, then in the
/// files its file imports.
pub open spec fn full_path_type(nodes: Seq<ScopeNode>, i: int, full_path: Seq<Seq<char>>) -> Result<TypeV, Seq<char>> {
    if full_path.len() == 0 {
        Err("Cannot resolve empty full path"@)
    } else {
        match in_file(nodes, i, full_path) {
            Some(t) => Ok(t),
            None => match node_imports(nodes, i) {
                Err(e) => Err(e),
                Ok(imports) => match in_imported_files(nodes, imports, full_path) {
                    Err(e) => Err(e),
                    Ok(Some(t)) => Ok(t),
                    Ok(None) => Err("Cannot resolve "@ + full_path[0] + "\n  in "@ + name_or_empty(nodes[i])),
                },
            },
        }
    }
}

/// The resolved type of a field type written at node `i`.
pub open spec fn resolved_type(nodes: Seq<ScopeNode>, i: int, t: TypeRefV) -> Result<TypeV, Seq<char>>
    decreases t,
{
    match trivial_resolution(t) {
        Some(r) => Ok(r),
        None => match t {
            TypeRefV::IdPath(ids) => full_path_type(nodes, i, ids),
            TypeRefV::Repeated(v) => match resolved_type(nodes, i, *v) {
                Ok(r) => Ok(TypeV::Repeated(Box::new(r))),
                Err(e) => Err(e),
            },
            TypeRefV::MapOf(k, v) => match resolved_type(nodes, i, *k) {
                Err(e) => Err(e),
                Ok(kr) => match resolved_type(nodes, i, *v) {
                    Err(e) => Err(e),
                    Ok(vr) => Ok(TypeV::MapOf(Box::new(kr), Box::new(vr))),
                },
            },
            _ => Err(Seq::empty()),
        },
    }
}

impl ScopeBuilder {
    /// The type `full_path` names among the descendants of node `node`.
    pub fn resolve_in_direct_children(&self, node: usize, full_path: &[String]) -> (r: Option<Type>)
        requires
            self.wf(),
            node < self.nodes@.len(),
            full_path@.len() > 0,
        ensures
            match in_direct_children(self.nodes@, node as int, views(full_path@)) {
                Some(t) => r matches Some(x) && x@ == t,
                None => r is None,
            },
        decreases full_path@.len(),
    {
        let ghost fp = views(full_path@);
        let resolved = self.resolve_child_by_name(node, full_path[0].as_str());
        if full_path.len() == 1 {
            if resolved.len() == 0 {
                return None;
            }
            return self.get_type(resolved[0]);
        }
        let rest = slice_rest(full_path);
        assert(views(rest@) =~= fp.drop_first());
        let ghost cands = resolved@;
        assert(cands.skip(0) =~= cands);
        let mut k: usize = 0;
        while k < resolved.len()
            invariant
                self.wf(),
                k <= cands.len(),
                cands == resolved@,
                forall|q: int| 0 <= q < cands.len() ==> node < #[trigger] cands[q] < self.nodes@.len(),
                fp == views(full_path@),
                fp.len() >= 2,
                node < self.nodes@.len(),
                in_direct_children(self.nodes@, node as int, fp) == first_in_direct_children(self.nodes@, cands, fp.drop_first()),
                views(rest@) == fp.drop_first(),
                rest@.len() < full_path@.len(),
                rest@.len() > 0,
                first_in_direct_children(self.nodes@, cands, fp.drop_first()) == first_in_direct_children(self.nodes@, cands.skip(k as int), fp.drop_first()),
            decreases cands.len() - k,
        {
            assert(cands.skip(k as int)[0] == cands[k as int]);
            assert(cands.skip(k as int).drop_first() =~= cands.skip(k + 1));
            match self.resolve_in_direct_children(resolved[k], rest) {
                Some(t) => return Some(t),
                None => {},
            }
            k = k + 1;
        }
        None
    }

    /// The type `full_path` names when it starts with the name of node `node`.
    pub fn resolve_in_itself(&self, node: usize, full_path: &[String]) -> (r: Option<Type>)
        requires
            self.wf(),
            node < self.nodes@.len(),
        ensures
            match in_itself(self.nodes@, node as int, views(full_path@)) {
                Some(t) => r matches Some(x) && x@ == t,
                None => r is None,
            },
    {
        if full_path.len() == 0 {
            return None;
        }
        match self.name(node) {
            Some(n) => {
                if str_eq(n.as_str(), full_path[0].as_str()) {
                    if full_path.len() == 1 {
                        return self.get_type(node);
                    }
                    let rest = slice_rest(full_path);
                    assert(views(rest@) =~= views(full_path@).drop_first());
                    return self.resolve_in_direct_children(node, rest);
                }
                None
            },
            None => None,
        }
    }

    /// The type `full_path` names from the enclosing messages of node `node`.
    pub fn resolve_in_parents_until_file(&self, node: usize, full_path: &[String]) -> (r: Option<Type>)
        requires
            self.wf(),
            node < self.nodes@.len(),
            full_path@.len() > 0,
        ensures
            match in_parents_until_file(self.nodes@, node as int, views(full_path@)) {
                Some(t) => r matches Some(x) && x@ == t,
                None => r is None,
            },
        decreases node,
    {
        if self.is_root(node) || self.is_package(node) || self.is_file(node) {
            return None;
        }
        match self.nodes[node].parent {
            Some(p) => {
                if p >= node {
                    return None;
                }
                match self.resolve_in_direct_children(p, full_path) {
                    Some(t) => return Some(t),
                    None => {},
                }
                match self.resolve_in_itself(p, full_path) {
                    Some(t) => Some(t),
                    None => self.resolve_in_parents_until_file(p, full_path),
                }
            },
            None => None,
        }
    }

    /// The type `full_path` names from node `node` within its own file.
    pub fn resolve_in_file(&self, node: usize, full_path: &[String]) -> (r: Option<Type>)
        requires
            self.wf(),
            node < self.nodes@.len(),
            full_path@.len() > 0,
        ensures
            match in_file(self.nodes@, node as int, views(full_path@)) {
                Some(t) => r matches Some(x) && x@ == t,
                None => r is None,
            },
    {
        match self.resolve_in_direct_children(node, full_path) {
            Some(t) => return Some(t),
            None => {},
        }
        match self.resolve_in_itself(node, full_path) {
            Some(t) => return Some(t),
            None => {},
        }
        self.resolve_in_parents_until_file(node, full_path)
    }

    /// The path of the first of `cands` that is a file.
    fn first_file_path(&self, cands: &Vec<usize>) -> (r: Option<Vec<String>>)
        requires
            self.wf(),
            forall|q: int| 0 <= q < cands@.len() ==> #[trigger] cands@[q] < self.nodes@.len(),
        ensures
            match first_file_path(self.nodes@, cands@) {
                Some(p) => r matches Some(v) && views(v@) == p,
                None => r is None,
            },
    {
        assert(cands@.skip(0) =~= cands@);
        let mut k: usize = 0;
        while k < cands.len()
            invariant
                self.wf(),
                k <= cands@.len(),
                forall|q: int| 0 <= q < cands@.len() ==> #[trigger] cands@[q] < self.nodes@.len(),
                first_file_path(self.nodes@, cands@) == first_file_path(self.nodes@, cands@.skip(k as int)),
            decreases cands@.len() - k,
        {
            assert(cands@.skip(k as int)[0] == cands@[k as int]);
            assert(cands@.skip(k as int).drop_first() =~= cands@.skip(k + 1));
            if self.is_file(cands[k]) {
                return Some(self.path(cands[k]));
            }
            k = k + 1;
        }
        None
    }

    /// The path of the file an import of `packages`/`file_name` names from node `node`.
    pub fn resolve_import(&self, node: usize, packages: &[String], file_name: &str) -> (r: Option<Vec<String>>)
        requires
            self.wf(),
            node < self.nodes@.len(),
        ensures
            match import_target(self.nodes@, node as int, views(packages@), file_name@) {
                Some(p) => r matches Some(v) && views(v@) == p,
                None => r is None,
            },
        decreases packages@.len(), node,
    {
        if packages.len() == 0 {
            let children = self.resolve_child_by_name(node, file_name);
            return self.first_file_path(&children);
        }
        let ghost pv = views(packages@);
        let children = self.resolve_child_by_name(node, packages[0].as_str());
        let rest = slice_rest(packages);
        assert(views(rest@) =~= pv.drop_first());
        let ghost cands = children@;
        assert(cands.skip(0) =~= cands);
        let mut k: usize = 0;
        while k < children.len()
            invariant
                self.wf(),
                k <= cands.len(),
                cands == children@,
                forall|q: int| 0 <= q < cands.len() ==> node < #[trigger] cands[q] < self.nodes@.len(),
                pv == views(packages@),
                pv.len() > 0,
                node < self.nodes@.len(),
                cands == named_among(self.nodes@, self.nodes@[node as int].children@, pv[0]),
                import_target(self.nodes@, node as int, pv, file_name@) == (match first_import_target(self.nodes@, cands, pv.drop_first(), file_name@) {
                    Some(x) => Some(x),
                    None => match self.nodes@[node as int].parent {
                        Some(p) => if 0 <= p < node { import_target(self.nodes@, p as int, pv, file_name@) } else { None },
                        None => None,
                    },
                }),
                views(rest@) == pv.drop_first(),
                rest@.len() < packages@.len(),
                first_import_target(self.nodes@, cands, pv.drop_first(), file_name@)
                    == first_import_target(self.nodes@, cands.skip(k as int), pv.drop_first(), file_name@),
            decreases cands.len() - k,
        {
            assert(cands.skip(k as int)[0] == cands[k as int]);
            assert(cands.skip(k as int).drop_first() =~= cands.skip(k + 1));
            match self.resolve_import(children[k], rest, file_name) {
                Some(x) => return Some(x),
                None => {},
            }
            k = k + 1;
        }
        match self.nodes[node].parent {
            Some(p) => if p < node { self.resolve_import(p, packages, file_name) } else { None },
            None => None,
        }
    }

    /// The paths of the files imported by the file that holds node `node`.
    pub fn get_imports(&self, node: usize) -> (r: Result<Vec<Vec<String>>, ProtoError>)
        requires
            self.wf(),
            node < self.nodes@.len(),
        ensures
            match node_imports(self.nodes@, node as int) {
                Ok(v) => r matches Ok(x) && x@.len() == v.len() && forall|k: int| 0 <= k < v.len() ==> views(#[trigger] x@[k]@) == v[k],
                Err(e) => r matches Err(x) && x@ == ProtoErrorV::Other(e),
            },
        decreases node,
    {
        match &self.nodes[node].data {
            ScopeData::Root => return Ok(Vec::new()),
            ScopeData::Package(_) => return Ok(Vec::new()),
            ScopeData::File(_, imports) => {
                let ghost iv = imports@;
                let mut res: Vec<Vec<String>> = Vec::new();
                let mut k: usize = 0;
                while k < imports.len()
                    invariant
                        self.wf(),
                        node < self.nodes@.len(),
                        iv == imports@,
                        k <= iv.len(),
                        self.nodes@[node as int].data matches ScopeData::File(_, im) && im@ == iv,
                        node_imports(self.nodes@, node as int) == imports_resolved(self.nodes@, node as int, iv),
                        imports_resolved(self.nodes@, node as int, iv.take(k as int)) matches Ok(v)
                            && res@.len() == v.len() && forall|q: int| 0 <= q < v.len() ==> views(#[trigger] res@[q]@) == v[q],
                    decreases iv.len() - k,
                {
                    let imp = &imports[k];
                    assert(iv.take(k + 1).drop_last() =~= iv.take(k as int));
                    assert(iv.take(k + 1).last() == *imp);
                    match self.resolve_import(node, &imp.packages, imp.file_name.as_str()) {
                        Some(p) => {
                            let ghost before = res@;
                            res.push(p);
                            assert forall|q: int| 0 <= q < res@.len() implies views(#[trigger] res@[q]@) == (match imports_resolved(self.nodes@, node as int, iv.take(k + 1)) {
                                Ok(v) => v,
                                Err(_) => Seq::empty(),
                            })[q] by {
                                if q < before.len() {
                                    assert(res@[q] == before[q]);
                                }
                            }
                        },
                        None => {
                            let mut message = String::new();
                            message.append("Cannot resolve import ");
                            crate::text::push_joined(&mut message, &imp.packages, "/");
                            message.append("/");
                            message.append(imp.file_name.as_str());
                            assert(message@ =~= "Cannot resolve import "@ + import_text(*imp));
                            proof {
                                lemma_imports_resolved_prefix_err(self.nodes@, node as int, iv, k as int);
                                lemma_imports_resolved_err_stays(self.nodes@, node as int, iv, k + 1, iv.len() as int);
                                assert(iv.take(iv.len() as int) =~= iv);
                            }
                            return Err(ProtoError::Other(message));
                        },
                    }
                    k = k + 1;
                }
                assert(iv.take(iv.len() as int) =~= iv);
                Ok(res)
            },
            _ => {
                match self.nodes[node].parent {
                    Some(p) => if p < node { self.get_imports(p) } else { Ok(Vec::new()) },
                    None => Ok(Vec::new()),
                }
            },
        }
    }

    /// The type `full_path` names among the declarations of the file at node `file_node`.
    pub fn resolve_in_imported_file(&self, file_node: usize, full_path: &[String]) -> (r: Option<Type>)
        requires
            self.wf(),
            file_node < self.nodes@.len(),
        ensures
            match first_matching(self.nodes@, node_declarations(self.nodes@, file_node as int), views(full_path@)) {
                Some(t) => r matches Some(x) && x@ == t,
                None => r is None,
            },
    {
        let decls = self.get_all_declaration_builders(file_node);
        let ghost ds = decls@;
        assert(ds.skip(0) =~= ds);
        let mut k: usize = 0;
        while k < decls.len()
            invariant
                self.wf(),
                ds == decls@,
                ds == node_declarations(self.nodes@, file_node as int),
                k <= ds.len(),
                forall|q: int| 0 <= q < ds.len() ==> #[trigger] ds[q] < self.nodes@.len(),
                first_matching(self.nodes@, ds, views(full_path@)) == first_matching(self.nodes@, ds.skip(k as int), views(full_path@)),
            decreases ds.len() - k,
        {
            assert(ds.skip(k as int)[0] == ds[k as int]);
            assert(ds.skip(k as int).drop_first() =~= ds.skip(k + 1));
            if self.matches(decls[k], full_path) {
                return self.get_type(decls[k]);
            }
            k = k + 1;
        }
        None
    }

    /// The type a name path denotes from node `node` (see `full_path_type`).
    pub fn resolve_full_path(&self, node: usize, full_path: &[String]) -> (r: Result<Type, ProtoError>)
        requires
            self.wf(),
            node < self.nodes@.len(),
        ensures
            match full_path_type(self.nodes@, node as int, views(full_path@)) {
                Ok(t) => r matches Ok(x) && x@ == t,
                Err(e) => r matches Err(x) && x@ == ProtoErrorV::Other(e),
            },
    {
        if full_path.len() == 0 {
            return Err(ProtoError::new("Cannot resolve empty full path"));
        }
        match self.resolve_in_file(node, full_path) {
            Some(t) => return Ok(t),
            None => {},
        }
        let imports = match self.get_imports(node) {
            Ok(v) => v,
            Err(e) => return Err(e),
        };
        let ghost iv = match node_imports(self.nodes@, node as int) {
            Ok(v) => v,
            Err(_) => Seq::empty(),
        };
        assert(iv.skip(0) =~= iv);
        let mut k: usize = 0;
        while k < imports.len()
            invariant
                self.wf(),
                node < self.nodes@.len(),
                imports@.len() == iv.len(),
                forall|q: int| 0 <= q < iv.len() ==> views(#[trigger] imports@[q]@) == iv[q],
                k <= iv.len(),
                views(full_path@).len() > 0,
                in_file(self.nodes@, node as int, views(full_path@)) is None,
                node_imports(self.nodes@, node as int) == Ok::<Seq<Seq<Seq<char>>>, Seq<char>>(iv),
                in_imported_files(self.nodes@, iv, views(full_path@)) == in_imported_files(self.nodes@, iv.skip(k as int), views(full_path@)),
            decreases iv.len() - k,
        {
            assert(iv.skip(k as int)[0] == iv[k as int]);
            assert(iv.skip(k as int).drop_first() =~= iv.skip(k + 1));
            let file_node = match self.get_builder_by_absolute_path(imports[k].as_slice()) {
                Some(f) => f,
                None => {
                    let mut message = String::new();
                    message.append("Cannot find imported file ");
                    crate::text::push_joined(&mut message, &imports[k], "/");
                    return Err(ProtoError::Other(message));
                },
            };
            match self.resolve_in_imported_file(file_node, full_path) {
                Some(t) => return Ok(t),
                None => {},
            }
            k = k + 1;
        }
        let mut message = String::new();
        message.append("Cannot resolve ");
        message.append(full_path[0].as_str());
        message.append("\n  in ");
        match self.name(node) {
            Some(n) => message.append(n.as_str()),
            None => {},
        }
        Err(ProtoError::Other(message))
    }

    /// The resolved type of a field type written at node `node`.
    pub fn resolve_type(&self, node: usize, field_type_ref: &FieldTypeReference) -> (r: Result<Type, ProtoError>)
        requires
            self.wf(),
            node < self.nodes@.len(),
        ensures
            match resolved_type(self.nodes@, node as int, field_type_ref@) {
                Ok(t) => r matches Ok(x) && x@ == t,
                Err(e) => r matches Err(x) && x@ == ProtoErrorV::Other(e),
            },
        decreases field_type_ref,
    {
        match field_type_ref.trivial_resolve() {
            Some(t) => return Ok(t),
            None => {},
        }
        match field_type_ref {
            FieldTypeReference::IdPath(ids) => self.resolve_full_path(node, ids.as_slice()),
            FieldTypeReference::Repeated(v) => {
                let value_type = self.resolve_type(node, &**v)?;
                Ok(Type::Repeated(Box::new(value_type)))
            },
            FieldTypeReference::MapOf(k, v) => {
                let key_type = self.resolve_type(node, &**k)?;
                let value_type = self.resolve_type(node, &**v)?;
                Ok(Type::MapOf(Box::new(key_type), Box::new(value_type)))
            },
            _ => Err(ProtoError::Other(String::new())),
        }
    }
}

proof fn lemma_imports_resolved_prefix_err(nodes: Seq<ScopeNode>, i: int, imports: Seq<ImportPath>, k: int)
    requires
        0 <= k < imports.len(),
        imports_resolved(nodes, i, imports.take(k)) is Ok,
        import_target(nodes, i, views(imports[k].packages@), imports[k].file_name@) is None,
    ensures
        imports_resolved(nodes, i, imports.take(k + 1)) == Err::<Seq<Seq<Seq<char>>>, Seq<char>>("Cannot resolve import "@ + import_text(imports[k])),
{
    assert(imports.take(k + 1).drop_last() =~= imports.take(k));
    assert(imports.take(k + 1).last() == imports[k]);
}


proof fn lemma_imports_resolved_err_stays(nodes: Seq<ScopeNode>, i: int, imports: Seq<ImportPath>, j: int, n: int)
    requires
        0 <= j <= n <= imports.len(),
        imports_resolved(nodes, i, imports.take(j)) is Err,
    ensures
        imports_resolved(nodes, i, imports.take(n)) == imports_resolved(nodes, i, imports.take(j)),
    decreases n - j,
{
    if n > j {
        lemma_imports_resolved_err_stays(nodes, i, imports, j, n - 1);
        assert(imports.take(n).drop_last() =~= imports.take(n - 1));
    }
}


/// `new` grows `old`: nodes are only added, and children only appended.
pub open spec fn extends(old: Seq<ScopeNode>, new: Seq<ScopeNode>) -> bool {
    &&& new.len() >= old.len()
    &&& forall|i: int| 0 <= i < old.len() ==> (#[trigger] new[i]).data == old[i].data && new[i].parent == old[i].parent
        && old[i].children@.len() <= new[i].children@.len()
        && new[i].children@.subrange(0, old[i].children@.len() as int) == old[i].children@
}

/// Whether node `i` is the one loaded for a declaration: the enum itself, or the
/// message with its fields and groups.
pub open spec fn declaration_node(nodes: Seq<ScopeNode>, i: int, d: Declaration) -> bool {
    match d {
        Declaration::Enum(e) => nodes[i].data == ScopeData::Enum(e),
        Declaration::Message(m) => nodes[i].data matches ScopeData::Message(id, name, fs) && id == m.id && name == m.name
            && fs@ == message_fields(m.entries@),
    }
}

/// The packages met going down from node `i` along `path`, each the first child package
/// of its name, as far as they exist.
pub open spec fn package_route(nodes: Seq<ScopeNode>, i: int, path: Seq<Seq<char>>) -> Seq<int>
    decreases path.len(),
{
    if path.len() == 0 {
        Seq::empty()
    } else {
        match first_package_child(nodes, nodes[i].children@, path[0]) {
            Some(c) => seq![c as int] + package_route(nodes, c as int, path.drop_first()),
            None => Seq::empty(),
        }
    }
}

/// Whether the last child of node `dir` is the file `file`: its name and imports,
/// and a child per declaration, in order (see `declaration_node`).
pub open spec fn holds_file_last(nodes: Seq<ScopeNode>, dir: int, file: ProtoFile) -> bool {
    let f = nodes[dir].children@.last() as int;
    &&& 0 <= dir < nodes.len()
    &&& nodes[dir].children@.len() > 0
    &&& nodes[f].data == ScopeData::File(file.name, file.imports)
    &&& nodes[f].children@.len() == file.declarations@.len()
    &&& forall|k: int| 0 <= k < file.declarations@.len() ==> declaration_node(nodes, #[trigger] nodes[f].children@[k] as int, file.declarations@[k])
}

/// The route down a path is no longer than the path.
proof fn lemma_package_route_len(nodes: Seq<ScopeNode>, i: int, path: Seq<Seq<char>>)
    ensures
        package_route(nodes, i, path).len() <= path.len(),
    decreases path.len(),
{
    if path.len() > 0 {
        if let Some(c) = first_package_child(nodes, nodes[i].children@, path[0]) {
            lemma_package_route_len(nodes, c as int, path.drop_first());
        }
    }
}

/// The fields and groups of a message, in order, without its nested declarations.
pub open spec fn message_fields(entries: Seq<MessageDeclarationEntry>) -> Seq<FieldOrOneOf>
    decreases entries.len(),
{
    if entries.len() == 0 {
        Seq::empty()
    } else {
        let rest = message_fields(entries.drop_last());
        match entries.last() {
            MessageDeclarationEntry::Field(f) => rest.push(FieldOrOneOf::Field(f)),
            MessageDeclarationEntry::OneOf(o) => rest.push(FieldOrOneOf::OneOf(o)),
            MessageDeclarationEntry::Declaration(_) => rest,
        }
    }
}

/// Whether the file at the end of `path` from node `i` already holds a file named `name`.
pub open spec fn file_present(nodes: Seq<ScopeNode>, i: int, path: Seq<Seq<char>>, name: Seq<char>) -> bool
    decreases path.len(),
{
    if path.len() == 0 {
        exists|k: int| 0 <= k < nodes[i].children@.len()
            && (nodes[#[trigger] nodes[i].children@[k] as int].data matches ScopeData::File(n, _) && n@ == name)
    } else {
        match first_package_child(nodes, nodes[i].children@, path[0]) {
            Some(c) => file_present(nodes, c as int, path.drop_first(), name),
            None => false,
        }
    }
}

/// Whether node `p` is the package `google.protobuf`, reached from the root by the
/// first package of each name.
pub open spec fn well_known_package_at(nodes: Seq<ScopeNode>, p: usize) -> bool {
    match first_package_child(nodes, nodes[0].children@, "google"@) {
        Some(g) => first_package_child(nodes, nodes[g as int].children@, "protobuf"@) == Some(p),
        None => false,
    }
}

/// A file is among the well-known files loaded exactly when it is a file directly
/// under the package `google.protobuf`.
proof fn lemma_well_known_file_present(nodes: Seq<ScopeNode>, p: usize, name: Seq<char>)
    requires
        well_known_package_at(nodes, p),
    ensures
        file_present(nodes, 0, well_known_packages(), name) == file_present(nodes, p as int, Seq::empty(), name),
{
    let ps = well_known_packages();
    assert(ps.drop_first() =~= seq!["protobuf"@]);
    assert(ps.drop_first().drop_first() =~= Seq::<Seq<char>>::empty());
    assert(ps[0] == "google"@);
    assert(ps.drop_first()[0] == "protobuf"@);
    let g = first_package_child(nodes, nodes[0].children@, "google"@)->0;
    assert(file_present(nodes, 0, ps, name) == file_present(nodes, g as int, ps.drop_first(), name));
    assert(file_present(nodes, g as int, ps.drop_first(), name)
        == file_present(nodes, p as int, ps.drop_first().drop_first(), name));
}

/// The package found among `cs` is one of `cs`.
proof fn lemma_first_package_child_among(nodes: Seq<ScopeNode>, cs: Seq<usize>, name: Seq<char>)
    ensures
        first_package_child(nodes, cs, name) matches Some(c) ==> cs.contains(c),
    decreases cs.len(),
{
    if cs.len() > 0 {
        lemma_first_package_child_among(nodes, cs.drop_first(), name);
        match first_package_child(nodes, cs.drop_first(), name) {
            Some(c) => {
                let k = choose|k: int| 0 <= k < cs.drop_first().len() && cs.drop_first()[k] == c;
                assert(cs[k + 1] == c);
            },
            None => {},
        }
        assert(cs[0] == cs[0]);
    }
}

/// Without a package `google`, no well-known file is loaded.
proof fn lemma_no_google_no_well_known(nodes: Seq<ScopeNode>, name: Seq<char>)
    requires
        first_package_child(nodes, nodes[0].children@, "google"@) is None,
    ensures
        !file_present(nodes, 0, well_known_packages(), name),
{
    assert(well_known_packages()[0] == "google"@);
}

/// Whether there is a package `google` with no package `protobuf` in it.
pub open spec fn protobuf_package_missing(nodes: Seq<ScopeNode>) -> bool {
    match first_package_child(nodes, nodes[0].children@, "google"@) {
        Some(g) => first_package_child(nodes, nodes[g as int].children@, "protobuf"@) is None,
        None => false,
    }
}

/// The first of `cs` that is the package `name`.
pub open spec fn first_package_child(nodes: Seq<ScopeNode>, cs: Seq<usize>, name: Seq<char>) -> Option<usize>
    decreases cs.len(),
{
    if cs.len() == 0 {
        None
    } else if nodes[cs[0] as int].data matches ScopeData::Package(n) && n@ == name {
        Some(cs[0])
    } else {
        first_package_child(nodes, cs.drop_first(), name)
    }
}

proof fn lemma_extends_trans(a: Seq<ScopeNode>, b: Seq<ScopeNode>, c: Seq<ScopeNode>)
    requires
        extends(a, b),
        extends(b, c),
    ensures
        extends(a, c),
{
    assert forall|i: int| 0 <= i < a.len() implies (#[trigger] c[i]).data == a[i].data && c[i].parent == a[i].parent
        && a[i].children@.len() <= c[i].children@.len()
        && c[i].children@.subrange(0, a[i].children@.len() as int) == a[i].children@ by {
        assert(b[i].children@.subrange(0, a[i].children@.len() as int) == a[i].children@);
        assert(c[i].children@.subrange(0, b[i].children@.len() as int) == b[i].children@);
        assert(c[i].children@.subrange(0, a[i].children@.len() as int) =~= c[i].children@.subrange(
            0,
            b[i].children@.len() as int,
        ).subrange(0, a[i].children@.len() as int));
    }
}

impl ScopeBuilder {
    /// Adds a node under `parent`, as its last child.
    fn add_node(&mut self, parent: usize, data: ScopeData) -> (r: usize)
        requires
            old(self).wf(),
            parent < old(self).nodes@.len(),
            !(data is Root),
        ensures
            final(self).wf(),
            r == old(self).nodes@.len(),
            final(self).nodes@.len() == old(self).nodes@.len() + 1,
            extends(old(self).nodes@, final(self).nodes@),
            final(self).nodes@[r as int].data == data,
            final(self).nodes@[r as int].parent == Some(parent),
            final(self).nodes@[r as int].children@.len() == 0,
            final(self).nodes@[parent as int].children@ == old(self).nodes@[parent as int].children@.push(r),
            forall|i: int| 0 <= i < old(self).nodes@.len() && i != parent ==> #[trigger] final(self).nodes@[i] == old(self).nodes@[i],
    {
        let index = self.nodes.len();
        self.nodes.push(ScopeNode { data, parent: Some(parent), children: Vec::new() });
        let mut p = self.nodes.remove(parent);
        p.children.push(index);
        self.nodes.insert(parent, p);
        proof {
            let o = old(self).nodes@;
            let n = self.nodes@;
            assert forall|i: int| 0 <= i < o.len() && i != parent implies #[trigger] n[i] == o[i] by {}
            assert forall|i: int| 0 <= i < o.len() implies (#[trigger] n[i]).data == o[i].data && n[i].parent == o[i].parent
                && o[i].children@.len() <= n[i].children@.len()
                && n[i].children@.subrange(0, o[i].children@.len() as int) == o[i].children@ by {
                if i == parent {
                    assert(n[i].children@.subrange(0, o[i].children@.len() as int) =~= o[i].children@);
                }
            }
            assert forall|i: int, j: int| 0 <= i < n.len() && 0 <= j < n[i].children@.len() implies i < #[trigger] n[i].children@[j] < n.len() by {
                if i == parent && j == n[i].children@.len() - 1 {
                } else if i < o.len() {
                    assert(n[i].children@[j] == o[i].children@[j]);
                }
            }
            assert forall|i: int| 1 <= i < n.len() implies (#[trigger] n[i].parent matches Some(q) && q < i) && !(n[i].data is Root) by {
                if i < o.len() {
                    assert(n[i].parent == o[i].parent);
                }
            }
        }
        index
    }

    /// Adds an enum under node `node`.
    pub fn load_enum(&mut self, node: usize, enum_declaration: EnumDeclaration) -> (r: Result<(), ProtoError>)
        requires
            old(self).wf(),
            node < old(self).nodes@.len(),
        ensures
            r is Ok,
            final(self).wf(),
            extends(old(self).nodes@, final(self).nodes@),
            final(self).nodes@.len() == old(self).nodes@.len() + 1,
            final(self).nodes@[node as int].children@ == old(self).nodes@[node as int].children@.push(old(self).nodes@.len() as usize),
            final(self).nodes@[old(self).nodes@.len() as int].data == ScopeData::Enum(enum_declaration),
            forall|i: int| 0 <= i < old(self).nodes@.len() && i != node ==> #[trigger] final(self).nodes@[i] == old(self).nodes@[i],
    {
        self.add_node(node, ScopeData::Enum(enum_declaration));
        Ok(())
    }

    /// Adds a message under node `node`, then its nested enums, then its nested messages.
    pub fn load_message(&mut self, node: usize, message_declaration: MessageDeclaration) -> (r: Result<(), ProtoError>)
        requires
            old(self).wf(),
            node < old(self).nodes@.len(),
        ensures
            r is Ok,
            final(self).wf(),
            extends(old(self).nodes@, final(self).nodes@),
            final(self).nodes@.len() > old(self).nodes@.len(),
            final(self).nodes@[node as int].children@ == old(self).nodes@[node as int].children@.push(old(self).nodes@.len() as usize),
            final(self).nodes@[old(self).nodes@.len() as int].data == ScopeData::Message(
                message_declaration.id,
                message_declaration.name,
                final(self).nodes@[old(self).nodes@.len() as int].data->Message_2,
            ),
            final(self).nodes@[old(self).nodes@.len() as int].data->Message_2@ == message_fields(message_declaration.entries@),
            forall|i: int| 0 <= i < old(self).nodes@.len() && i != node ==> #[trigger] final(self).nodes@[i] == old(self).nodes@[i],
        decreases message_declaration,
    {
        let MessageDeclaration { id, name, entries } = message_declaration;
        let ghost ev = entries@;
        let mut fields: Vec<FieldOrOneOf> = Vec::new();
        let mut sub_messages: Vec<MessageDeclaration> = Vec::new();
        let mut sub_enums: Vec<EnumDeclaration> = Vec::new();
        let mut rest = entries;
        let mut taken: usize = 0;
        assert(ev.len() == rest.len());
        while rest.len() > 0
            invariant
                ev == message_declaration.entries@,
                taken + rest@.len() == ev.len(),
                ev.len() <= usize::MAX,
                rest@ == ev.subrange(taken as int, ev.len() as int),
                fields@ == message_fields(ev.subrange(0, taken as int)),
                forall|k: int| 0 <= k < sub_messages@.len() ==> decreases_to!(message_declaration => #[trigger] sub_messages@[k]),
            decreases rest@.len(),
        {
            let entry = rest.remove(0);
            proof {
                assert(ev.subrange(0, taken + 1).drop_last() =~= ev.subrange(0, taken as int));
                assert(ev.subrange(0, taken + 1).last() == entry);
                assert(rest@ =~= ev.subrange(taken + 1, ev.len() as int));
                assert(decreases_to!(message_declaration => message_declaration.entries@[taken as int]));
            }
            match entry {
                MessageDeclarationEntry::Field(f) => fields.push(FieldOrOneOf::Field(f)),
                MessageDeclarationEntry::Declaration(decl) => {
                    match decl {
                        Declaration::Enum(e) => sub_enums.push(e),
                        Declaration::Message(m) => {
                            proof {
                                assert(decreases_to!(message_declaration => m));
                            }
                            sub_messages.push(m);
                        },
                    }
                },
                MessageDeclarationEntry::OneOf(o) => fields.push(FieldOrOneOf::OneOf(o)),
            }
            taken = taken + 1;
        }
        assert(ev.subrange(0, ev.len() as int) =~= ev);
        let ghost start = self.nodes@;
        let message_index = self.add_node(node, ScopeData::Message(id, name, fields));
        let ghost after_add = self.nodes@;
        proof {
            lemma_extends_refl(after_add);
        }
        while sub_enums.len() > 0
            invariant
                self.wf(),
                message_index == start.len(),
                message_index < self.nodes@.len(),
                after_add.len() == start.len() + 1,
                extends(after_add, self.nodes@),
                forall|i: int| 0 <= i < after_add.len() && i != message_index ==> #[trigger] self.nodes@[i] == after_add[i],
            decreases sub_enums@.len(),
        {
            let e = sub_enums.remove(0);
            let ghost before = self.nodes@;
            let _ = self.load_enum(message_index, e);
            proof {
                lemma_extends_trans(after_add, before, self.nodes@);
            }
        }
        while sub_messages.len() > 0
            invariant
                self.wf(),
                message_index == start.len(),
                message_index < self.nodes@.len(),
                after_add.len() == start.len() + 1,
                extends(after_add, self.nodes@),
                forall|i: int| 0 <= i < after_add.len() && i != message_index ==> #[trigger] self.nodes@[i] == after_add[i],
                forall|k: int| 0 <= k < sub_messages@.len() ==> decreases_to!(message_declaration => #[trigger] sub_messages@[k]),
            decreases sub_messages@.len(),
        {
            let ghost prev = sub_messages@;
            proof {
                assert(decreases_to!(message_declaration => prev[0]));
            }
            let m = sub_messages.remove(0);
            proof {
                assert forall|k: int| 0 <= k < sub_messages@.len() implies decreases_to!(message_declaration => #[trigger] sub_messages@[k]) by {
                    assert(sub_messages@[k] == prev[k + 1]);
                }
            }
            let ghost before = self.nodes@;
            let _ = self.load_message(message_index, m);
            proof {
                lemma_extends_trans(after_add, before, self.nodes@);
            }
        }
        proof {
            lemma_extends_trans(start, after_add, self.nodes@);
            assert(self.nodes@[node as int] == after_add[node as int]);
        }
        Ok(())
    }
}


proof fn lemma_extends_refl(a: Seq<ScopeNode>)
    ensures
        extends(a, a),
{
    assert forall|i: int| 0 <= i < a.len() implies (#[trigger] a[i]).data == a[i].data && a[i].parent == a[i].parent
        && a[i].children@.len() <= a[i].children@.len()
        && a[i].children@.subrange(0, a[i].children@.len() as int) == a[i].children@ by {
        assert(a[i].children@.subrange(0, a[i].children@.len() as int) =~= a[i].children@);
    }
}


impl ScopeBuilder {
    /// Adds a declaration under node `node`.
    pub fn load_declaration(&mut self, node: usize, declaration: Declaration) -> (r: Result<(), ProtoError>)
        requires
            old(self).wf(),
            node < old(self).nodes@.len(),
        ensures
            r is Ok,
            declaration_node(final(self).nodes@, old(self).nodes@.len() as int, declaration),
            final(self).wf(),
            extends(old(self).nodes@, final(self).nodes@),
            final(self).nodes@.len() > old(self).nodes@.len(),
            final(self).nodes@[node as int].children@ == old(self).nodes@[node as int].children@.push(old(self).nodes@.len() as usize),
            forall|i: int| 0 <= i < old(self).nodes@.len() && i != node ==> #[trigger] final(self).nodes@[i] == old(self).nodes@[i],
    {
        match declaration {
            Declaration::Enum(e) => self.load_enum(node, e),
            Declaration::Message(m) => self.load_message(node, m),
        }
    }

    /// The first child of node `node` that is the package `name`.
    fn find_package_child(&self, node: usize, name: &str) -> (r: Option<usize>)
        requires
            self.wf(),
            node < self.nodes@.len(),
        ensures
            r == first_package_child(self.nodes@, self.nodes@[node as int].children@, name@),
            r matches Some(c) ==> node < c < self.nodes@.len(),
    {
        let ghost cs = self.nodes@[node as int].children@;
        assert(cs.skip(0) =~= cs);
        let n = self.nodes[node].children.len();
        let mut k: usize = 0;
        while k < n
            invariant
                self.wf(),
                node < self.nodes@.len(),
                cs == self.nodes@[node as int].children@,
                n == cs.len(),
                k <= n,
                first_package_child(self.nodes@, cs, name@) == first_package_child(self.nodes@, cs.skip(k as int), name@),
            decreases n - k,
        {
            assert(cs.skip(k as int)[0] == cs[k as int]);
            assert(cs.skip(k as int).drop_first() =~= cs.skip(k + 1));
            let child = self.nodes[node].children[k];
            if self.is_package_with_name(child, name) {
                return Some(child);
            }
            k = k + 1;
        }
        None
    }

    /// Whether the file is already among the loaded files.
    pub fn is_file_loaded(&self, file: &ProtoFile) -> (r: bool)
        requires
            self.wf(),
        ensures
            r == file_present(self.nodes@, 0, views(file.path@), file.name@),
    {
        self.file_present_at(0, file.path.as_slice(), file.name.as_str())
    }

    fn file_present_at(&self, node: usize, path: &[String], name: &str) -> (r: bool)
        requires
            self.wf(),
            node < self.nodes@.len(),
        ensures
            r == file_present(self.nodes@, node as int, views(path@), name@),
        decreases path@.len(),
    {
        if path.len() == 0 {
            let n = self.nodes[node].children.len();
            let mut k: usize = 0;
            while k < n
                invariant
                    self.wf(),
                    node < self.nodes@.len(),
                    n == self.nodes@[node as int].children@.len(),
                    k <= n,
                    path@.len() == 0,
                    forall|q: int| 0 <= q < k ==> !(self.nodes@[#[trigger] self.nodes@[node as int].children@[q] as int].data matches ScopeData::File(f, _) && f@ == name@),
                decreases n - k,
            {
                let child = self.nodes[node].children[k];
                if self.is_file_with_name(child, name) {
                    assert(self.nodes@[node as int].children@[k as int] == child);
                    return true;
                }
                k = k + 1;
            }
            return false;
        }
        match self.find_package_child(node, path[0].as_str()) {
            Some(c) => {
                let rest = slice_rest(path);
                assert(views(rest@) =~= views(path@).drop_first());
                self.file_present_at(c, rest, name)
            },
            None => false,
        }
    }

    /// Adds a file under the packages `path` below node `node`, creating the packages
    /// that are missing, then its declarations under it.
    pub fn load_file(&mut self, node: usize, file: ProtoFile, path: &[String]) -> (r: Result<(), ProtoError>)
        requires
            old(self).wf(),
            node < old(self).nodes@.len(),
            !file_present(old(self).nodes@, node as int, views(path@), file.name@),
        ensures
            r is Ok,
            final(self).wf(),
            extends(old(self).nodes@, final(self).nodes@),
            file_present(final(self).nodes@, node as int, views(path@), file.name@),
            package_route(final(self).nodes@, node as int, views(path@)).len() == path@.len(),
            package_route(old(self).nodes@, node as int, views(path@)) == package_route(final(self).nodes@, node as int, views(path@)).take(
                package_route(old(self).nodes@, node as int, views(path@)).len() as int,
            ),
            forall|k: int| package_route(old(self).nodes@, node as int, views(path@)).len() <= k < path@.len()
                ==> #[trigger] package_route(final(self).nodes@, node as int, views(path@))[k] >= old(self).nodes@.len(),
            holds_file_last(
                final(self).nodes@,
                if path@.len() == 0 { node as int } else { package_route(final(self).nodes@, node as int, views(path@)).last() },
                file,
            ),
        decreases path@.len(),
    {
        let ghost file_name = file.name@;
        let ghost whole = file;
        if path.len() == 0 {
            let ProtoFile { version, declarations, imports, path: _, name } = file;
            let file_node = self.add_node(node, ScopeData::File(name, imports));
            let ghost after_add = self.nodes@;
            let ghost all = declarations@;
            proof {
                lemma_extends_refl(after_add);
                assert(all.skip(0) =~= all);
            }
            let mut decls = declarations;
            let ghost mut j: int = 0;
            while decls.len() > 0
                invariant
                    self.wf(),
                    node < file_node < self.nodes@.len(),
                    extends(after_add, self.nodes@),
                    0 <= j <= all.len(),
                    decls@ == all.skip(j),
                    self.nodes@[file_node as int].data == ScopeData::File(whole.name, whole.imports),
                    self.nodes@[file_node as int].children@.len() == j,
                    self.nodes@[node as int].children@ == after_add[node as int].children@,
                    forall|q: int| 0 <= q < j ==> declaration_node(self.nodes@, #[trigger] self.nodes@[file_node as int].children@[q] as int, all[q]),
                decreases decls@.len(),
            {
                let d = decls.remove(0);
                let count = self.nodes.len();
                let ghost before = self.nodes@;
                proof {
                    assert(all.skip(j)[0] == all[j]);
                    assert(all.skip(j).remove(0) =~= all.skip(j + 1));
                }
                let ghost dv = d;
                let _ = self.load_declaration(file_node, d);
                proof {
                    assert(dv == all[j]);
                    assert(before[file_node as int].children@.len() == j);
                    assert(self.nodes@[file_node as int].children@ == before[file_node as int].children@.push(before.len() as usize));
                    assert(self.nodes@[file_node as int].children@[j] == before.len());
                    lemma_extends_trans(after_add, before, self.nodes@);
                    assert forall|q: int| 0 <= q < j + 1 implies declaration_node(self.nodes@, #[trigger] self.nodes@[file_node as int].children@[q] as int, all[q]) by {
                        if q < j {
                            let c = before[file_node as int].children@[q] as int;
                            assert(self.nodes@[file_node as int].children@[q] == before[file_node as int].children@[q]);
                            assert(file_node < c < before.len());
                            assert(self.nodes@[c] == before[c]);
                        }
                    }
                    j = j + 1;
                }
            }
            proof {
                assert(j == all.len());
                lemma_extends_trans(old(self).nodes@, after_add, self.nodes@);
                let k = old(self).nodes@[node as int].children@.len() as int;
                assert(after_add[node as int].children@[k] == file_node);
                assert(self.nodes@[node as int].children@.subrange(0, after_add[node as int].children@.len() as int)
                    == after_add[node as int].children@);
                assert(self.nodes@[node as int].children@[k] == file_node);
                assert(self.nodes@[file_node as int].data == after_add[file_node as int].data);
                assert(self.nodes@[self.nodes@[node as int].children@[k] as int].data matches ScopeData::File(n, _) && n@ == file_name);
                assert(package_route(old(self).nodes@, node as int, views(path@)) =~= Seq::<int>::empty());
                assert(package_route(self.nodes@, node as int, views(path@)) =~= Seq::<int>::empty());
                assert(after_add[node as int].children@ == old(self).nodes@[node as int].children@.push(file_node));
                assert(self.nodes@[node as int].children@.last() == file_node);
                assert(all == whole.declarations@);
                assert forall|k: int| 0 <= k < whole.declarations@.len() implies declaration_node(
                    self.nodes@,
                    #[trigger] self.nodes@[file_node as int].children@[k] as int,
                    whole.declarations@[k],
                ) by {
                    assert(declaration_node(self.nodes@, self.nodes@[file_node as int].children@[k] as int, all[k]));
                }
                assert(holds_file_last(self.nodes@, node as int, whole));
            }
            return Ok(());
        }
        let rest = slice_rest(path);
        assert(views(rest@) =~= views(path@).drop_first());
        match self.find_package_child(node, path[0].as_str()) {
            Some(c) => {
                let ghost before = self.nodes@;
                let res = self.load_file(c, file, rest);
                proof {
                    lemma_first_package_child_stable(before, self.nodes@, before[node as int].children@,
                        self.nodes@[node as int].children@, views(path@)[0]);
                    let ro = package_route(before, c as int, views(rest@));
                    let rn = package_route(self.nodes@, c as int, views(rest@));
                    assert(package_route(before, node as int, views(path@)) == seq![c as int] + ro);
                    assert(package_route(self.nodes@, node as int, views(path@)) == seq![c as int] + rn);
                    lemma_package_route_len(before, c as int, views(rest@));
                    assert(ro == rn.take(ro.len() as int));
                    assert forall|k: int| 0 <= k < ro.len() + 1 implies (seq![c as int] + ro)[k] == (seq![c as int] + rn).take(ro.len() as int + 1)[k] by {
                        assert((seq![c as int] + rn).take(ro.len() as int + 1)[k] == (seq![c as int] + rn)[k]);
                        if k > 0 {
                            assert((seq![c as int] + ro)[k] == ro[k - 1]);
                            assert((seq![c as int] + rn)[k] == rn[k - 1]);
                            assert(ro[k - 1] == rn.take(ro.len() as int)[k - 1]);
                        }
                    }
                    assert(seq![c as int] + ro =~= (seq![c as int] + rn).take(ro.len() as int + 1));
                    assert forall|k: int| ro.len() + 1 <= k < path@.len() implies #[trigger] (seq![c as int] + rn)[k] >= before.len() by {
                        assert((seq![c as int] + rn)[k] == rn[k - 1]);
                        assert(ro.len() <= k - 1 < rest@.len());
                        assert(rn[k - 1] >= before.len());
                    }
                    if rest@.len() > 0 {
                        assert((seq![c as int] + rn).last() == rn.last());
                    } else {
                        assert((seq![c as int] + rn).last() == c as int);
                    }
                }
                res
            },
            None => {
                let package_node = self.add_node(node, ScopeData::Package(path[0].clone()));
                let ghost after_add = self.nodes@;
                proof {
                    if views(rest@).len() > 0 {
                        assert(self.nodes@[package_node as int].children@ =~= Seq::<usize>::empty());
                        assert(first_package_child(self.nodes@, Seq::<usize>::empty(), views(rest@)[0]) is None);
                    }
                    assert(package_route(after_add, package_node as int, views(rest@)) =~= Seq::<int>::empty());
                }
                let res = self.load_file(package_node, file, rest);
                proof {
                    lemma_extends_trans(old(self).nodes@, after_add, self.nodes@);
                    let cs_old = old(self).nodes@[node as int].children@;
                    let cs_after = after_add[node as int].children@;
                    let cs_final = self.nodes@[node as int].children@;
                    assert(cs_after == cs_old.push(package_node));
                    assert(cs_final.subrange(0, cs_after.len() as int) == cs_after);
                    lemma_first_package_child_appended(old(self).nodes@, self.nodes@, cs_old, cs_final, views(path@)[0], package_node);
                    let rn = package_route(self.nodes@, package_node as int, views(rest@));
                    assert(package_route(old(self).nodes@, node as int, views(path@)) =~= Seq::<int>::empty());
                    assert(package_route(self.nodes@, node as int, views(path@)) == seq![package_node as int] + rn);
                    assert forall|k: int| 0 <= k < path@.len() implies #[trigger] (seq![package_node as int] + rn)[k] >= old(self).nodes@.len() by {
                        if k > 0 {
                            assert((seq![package_node as int] + rn)[k] == rn[k - 1]);
                        }
                    }
                    if rest@.len() > 0 {
                        assert((seq![package_node as int] + rn).last() == rn.last());
                    } else {
                        assert((seq![package_node as int] + rn).last() == package_node as int);
                    }
                }
                res
            },
        }
    }

    /// The package `google.protobuf`, made together with `google` where the root has
    /// no package `google`.
    pub fn ensure_well_known_package(&mut self) -> (r: usize)
        requires
            old(self).wf(),
            !protobuf_package_missing(old(self).nodes@),
        ensures
            final(self).wf(),
            extends(old(self).nodes@, final(self).nodes@),
            r < final(self).nodes@.len(),
            well_known_package_at(final(self).nodes@, r),
            first_package_child(old(self).nodes@, old(self).nodes@[0].children@, "google"@) is Some
                ==> final(self).nodes@ == old(self).nodes@,
            first_package_child(old(self).nodes@, old(self).nodes@[0].children@, "google"@) is None
                ==> final(self).nodes@[r as int].children@.len() == 0,
    {
        proof {
            lemma_extends_refl(self.nodes@);
        }
        match self.find_package_child(0, "google") {
            Some(g) => {
                match self.find_package_child(g, "protobuf") {
                    Some(p) => p,
                    None => {
                        assert(protobuf_package_missing(self.nodes@));
                        0
                    },
                }
            },
            None => {
                let ghost before = self.nodes@;
                let g = self.add_node(0, ScopeData::Package("google".to_string()));
                let ghost middle = self.nodes@;
                let p = self.add_node(g, ScopeData::Package("protobuf".to_string()));
                proof {
                    lemma_extends_trans(before, middle, self.nodes@);
                    let cs_old = before[0].children@;
                    let cs_final = self.nodes@[0].children@;
                    assert(cs_final == middle[0].children@);
                    assert(cs_final.subrange(0, cs_old.len() as int + 1) =~= cs_old.push(g));
                    lemma_first_package_child_appended(before, self.nodes@, cs_old, cs_final, "google"@, g);
                    assert(self.nodes@[g as int].children@ =~= seq![p]);
                    assert(first_package_child(self.nodes@, seq![p].drop_first(), "protobuf"@) is None);
                }
                p
            },
        }
    }

    /// Adds the well-known file `file_name` under the package `google.protobuf`,
    /// unless it is loaded already; the package is made where there is none.
    pub fn load_well_known(&mut self, ids: &mut IdGenerator, file_name: &str)
        requires
            old(self).wf(),
            is_well_known_file_name(file_name@),
            old(ids)@ + 9 < usize::MAX,
            !protobuf_package_missing(old(self).nodes@),
        ensures
            final(self).wf(),
            extends(old(self).nodes@, final(self).nodes@),
            file_present(final(self).nodes@, 0, well_known_packages(), file_name@),
            file_present(old(self).nodes@, 0, well_known_packages(), file_name@)
                ==> final(self).nodes@ == old(self).nodes@ && final(ids)@ == old(ids)@,
            !file_present(old(self).nodes@, 0, well_known_packages(), file_name@)
                ==> final(ids)@ == old(ids)@ + well_known_declarations(file_name@, old(ids)@).len(),
    {
        let ghost start = self.nodes@;
        proof {
            if first_package_child(start, start[0].children@, "google"@) is None {
                lemma_no_google_no_well_known(start, file_name@);
            }
        }
        let protobuf = self.ensure_well_known_package();
        let no_packages: Vec<String> = Vec::new();
        assert(views(no_packages@) =~= Seq::<Seq<char>>::empty());
        proof {
            lemma_well_known_file_present(self.nodes@, protobuf, file_name@);
        }
        if self.file_present_at(protobuf, no_packages.as_slice(), file_name) {
            return;
        }
        let ghost middle = self.nodes@;
        let file = create_well_known_file(ids, file_name);
        let loaded = self.load_file(protobuf, file, no_packages.as_slice());
        assert(loaded is Ok);
        proof {
            lemma_extends_trans(start, middle, self.nodes@);
            let g = first_package_child(middle, middle[0].children@, "google"@)->0;
            lemma_first_package_child_among(middle, middle[0].children@, "google"@);
            lemma_first_package_child_stable(middle, self.nodes@, middle[0].children@,
                self.nodes@[0].children@, "google"@);
            lemma_first_package_child_stable(middle, self.nodes@, middle[g as int].children@,
                self.nodes@[g as int].children@, "protobuf"@);
            lemma_well_known_file_present(self.nodes@, protobuf, file_name@);
        }
    }

    /// Adds a file under the packages it declares; the file is then among the loaded
    /// files, so that loading it again is refused.
    pub fn load(&mut self, file: ProtoFile) -> (r: Result<(), ProtoError>)
        requires
            old(self).wf(),
            !file_present(old(self).nodes@, 0, views(file.path@), file.name@),
        ensures
            r is Ok,
            final(self).wf(),
            extends(old(self).nodes@, final(self).nodes@),
            file_present(final(self).nodes@, 0, views(file.path@), file.name@),
            package_route(final(self).nodes@, 0, views(file.path@)).len() == file.path@.len(),
            package_route(old(self).nodes@, 0, views(file.path@)) == package_route(final(self).nodes@, 0, views(file.path@)).take(
                package_route(old(self).nodes@, 0, views(file.path@)).len() as int,
            ),
            forall|k: int| package_route(old(self).nodes@, 0, views(file.path@)).len() <= k < file.path@.len()
                ==> #[trigger] package_route(final(self).nodes@, 0, views(file.path@))[k] >= old(self).nodes@.len(),
            holds_file_last(
                final(self).nodes@,
                if file.path@.len() == 0 { 0 } else { package_route(final(self).nodes@, 0, views(file.path@)).last() },
                file,
            ),
    {
        let package_path = copy_strings(&file.path);
        assert(views(package_path@) =~= views(file.path@));
        self.load_file(0, file, package_path.as_slice())
    }
}


/// The models of a list of declaration paths.
pub open spec fn paths_view(ps: Seq<(usize, Vec<String>)>) -> Seq<(nat, Seq<Seq<char>>)> {
    ps.map_values(|p: (usize, Vec<String>)| (p.0 as nat, views(p.1@)))
}

/// A field with its type resolved at node `i`.
pub open spec fn field_resolved(nodes: Seq<ScopeNode>, i: int, f: FieldDeclaration) -> Result<FieldV, Seq<char>> {
    match resolved_type(nodes, i, f.field_type_ref@) {
        Ok(t) => Ok(FieldV { name: f.name@, field_type: t, tag: f.tag as int, attributes: attributes_view(f.attributes@) }),
        Err(e) => Err(e),
    }
}

/// The options of a group with their types resolved, or the first failure.
pub open spec fn options_resolved(nodes: Seq<ScopeNode>, i: int, os: Seq<FieldDeclaration>) -> Result<Seq<FieldV>, Seq<char>>
    decreases os.len(),
{
    if os.len() == 0 {
        Ok(Seq::empty())
    } else {
        match options_resolved(nodes, i, os.drop_last()) {
            Err(e) => Err(e),
            Ok(v) => match field_resolved(nodes, i, os.last()) {
                Err(e) => Err(e),
                Ok(f) => Ok(v.push(f)),
            },
        }
    }
}

/// The entries of a message with their types resolved, or the first failure.
pub open spec fn entries_resolved(nodes: Seq<ScopeNode>, i: int, fs: Seq<FieldOrOneOf>) -> Result<Seq<MessageEntryV>, Seq<char>>
    decreases fs.len(),
{
    if fs.len() == 0 {
        Ok(Seq::empty())
    } else {
        match entries_resolved(nodes, i, fs.drop_last()) {
            Err(e) => Err(e),
            Ok(v) => match fs.last() {
                FieldOrOneOf::Field(f) => match field_resolved(nodes, i, f) {
                    Err(e) => Err(e),
                    Ok(fv) => Ok(v.push(MessageEntryV::Field(fv))),
                },
                FieldOrOneOf::OneOf(o) => match options_resolved(nodes, i, o.options@) {
                    Err(e) => Err(e),
                    Ok(ov) => Ok(v.push(MessageEntryV::OneOf(o.name@, ov))),
                },
            },
        }
    }
}

/// Node `i` as a resolved scope, with the path of names (innermost first) from it to
/// each declaration at or under it.
pub open spec fn node_resolved(nodes: Seq<ScopeNode>, i: int) -> Result<(ProtoScopeV, Seq<(nat, Seq<Seq<char>>)>), Seq<char>>
    decreases nodes.len() - i, 1int, 0int,
{
    match children_resolved(nodes, i, nodes[i].children@) {
        Err(e) => Err(e),
        Ok((scopes, paths)) => match nodes[i].data {
            ScopeData::Root => Err(Seq::empty()),
            ScopeData::Package(n) => Ok((ProtoScopeV::Package { name: n@, children: scopes }, paths)),
            ScopeData::File(n, _) => Ok((ProtoScopeV::File { name: n@, children: scopes }, paths)),
            ScopeData::Enum(e) => Ok((
                ProtoScopeV::Enum { id: e.id as nat, name: e.name@, values: crate::package::enum_entries_view(e.entries@) },
                paths.push((e.id as nat, Seq::empty())),
            )),
            ScopeData::Message(id, n, fs) => match entries_resolved(nodes, i, fs@) {
                Err(e) => Err(e),
                Ok(entries) => Ok((
                    ProtoScopeV::Message { id: id as nat, name: n@, children: scopes, entries },
                    paths.push((id as nat, Seq::empty())),
                )),
            },
        },
    }
}

/// The children `cs` of node `i` resolved, and their declaration paths, each
/// followed by the name of the child.
pub open spec fn children_resolved(nodes: Seq<ScopeNode>, i: int, cs: Seq<usize>) -> Result<(Seq<ProtoScopeV>, Seq<(nat, Seq<Seq<char>>)>), Seq<char>>
    decreases nodes.len() - i, 0int, cs.len(),
{
    if cs.len() == 0 {
        Ok((Seq::empty(), Seq::empty()))
    } else {
        match children_resolved(nodes, i, cs.drop_last()) {
            Err(e) => Err(e),
            Ok((scopes, paths)) => {
                let c = cs.last();
                if i < c < nodes.len() {
                    match node_resolved(nodes, c as int) {
                        Err(e) => Err(e),
                        Ok((sc, cps)) => {
                            let n = name_or_empty(nodes[c as int]);
                            Ok((scopes.push(sc), paths + cps.map_values(|p: (nat, Seq<Seq<char>>)| (p.0, p.1.push(n)))))
                        },
                    }
                } else {
                    Err(Seq::empty())
                }
            },
        }
    }
}

/// What `resolve` gives back: the scope, and the declaration paths under it.
pub struct ResolveResult {
    pub scope: ProtoScope,
    pub declaration_paths: Vec<(usize, Vec<String>)>,
}

/// A copy of a list of attributes.
fn copy_attributes(a: &Vec<(String, String)>) -> (r: Vec<(String, String)>)
    ensures
        attributes_view(r@) == attributes_view(a@),
{
    let mut r: Vec<(String, String)> = Vec::new();
    let mut i: usize = 0;
    while i < a.len()
        invariant
            i <= a@.len(),
            r@.len() == i,
            forall|k: int| 0 <= k < i ==> #[trigger] r@[k].0@ == a@[k].0@ && r@[k].1@ == a@[k].1@,
        decreases a@.len() - i,
    {
        r.push((a[i].0.clone(), a[i].1.clone()));
        i = i + 1;
    }
    assert(attributes_view(r@) =~= attributes_view(a@));
    r
}

impl ScopeBuilder {
    /// A field with its type resolved at node `node`.
    fn resolve_field(&self, node: usize, f: &FieldDeclaration) -> (r: Result<Field, ProtoError>)
        requires
            self.wf(),
            node < self.nodes@.len(),
        ensures
            match field_resolved(self.nodes@, node as int, *f) {
                Ok(fv) => r matches Ok(x) && x@ == fv,
                Err(e) => r matches Err(x) && x@ == ProtoErrorV::Other(e),
            },
    {
        let field_type = self.resolve_type(node, &f.field_type_ref)?;
        Ok(Field { name: f.name.clone(), field_type, tag: f.tag, attributes: copy_attributes(&f.attributes) })
    }

    /// The entries of the message at node `node`, with their types resolved.
    fn resolve_entries(&self, node: usize, fields: &Vec<FieldOrOneOf>) -> (r: Result<Vec<MessageEntry>, ProtoError>)
        requires
            self.wf(),
            node < self.nodes@.len(),
        ensures
            match entries_resolved(self.nodes@, node as int, fields@) {
                Ok(v) => r matches Ok(x) && crate::package::message_entries_view(x@) == v,
                Err(e) => r matches Err(x) && x@ == ProtoErrorV::Other(e),
            },
    {
        let mut entries: Vec<MessageEntry> = Vec::new();
        let mut k: usize = 0;
        while k < fields.len()
            invariant
                self.wf(),
                node < self.nodes@.len(),
                k <= fields@.len(),
                entries_resolved(self.nodes@, node as int, fields@.take(k as int)) matches Ok(v)
                    && crate::package::message_entries_view(entries@) == v,
            decreases fields@.len() - k,
        {
            proof {
                assert(fields@.take(k + 1).drop_last() =~= fields@.take(k as int));
                assert(fields@.take(k + 1).last() == fields@[k as int]);
            }
            match &fields[k] {
                FieldOrOneOf::Field(f) => {
                    match self.resolve_field(node, f) {
                        Ok(field) => {
                            let ghost before = entries@;
                            entries.push(MessageEntry::Field(field));
                            assert(crate::package::message_entries_view(entries@) =~= crate::package::message_entries_view(before).push(entries@.last()@));
                        },
                        Err(e) => {
                            proof {
                                lemma_entries_err_stays(self.nodes@, node as int, fields@, k + 1, fields@.len() as int);
                                assert(fields@.take(fields@.len() as int) =~= fields@);
                            }
                            return Err(e);
                        },
                    }
                },
                FieldOrOneOf::OneOf(o) => {
                    let mut options: Vec<Field> = Vec::new();
                    let mut q: usize = 0;
                    while q < o.options.len()
                        invariant
                            self.wf(),
                            node < self.nodes@.len(),
                            k < fields@.len(),
                            fields@[k as int] == FieldOrOneOf::OneOf(*o),
                            entries_resolved(self.nodes@, node as int, fields@.take(k as int)) is Ok,
                            fields@.take(k + 1).drop_last() == fields@.take(k as int),
                            fields@.take(k + 1).last() == fields@[k as int],
                            q <= o.options@.len(),
                            options_resolved(self.nodes@, node as int, o.options@.take(q as int)) matches Ok(v)
                                && crate::package::fields_view(options@) == v,
                        decreases o.options@.len() - q,
                    {
                        proof {
                            assert(o.options@.take(q + 1).drop_last() =~= o.options@.take(q as int));
                            assert(o.options@.take(q + 1).last() == o.options@[q as int]);
                        }
                        match self.resolve_field(node, &o.options[q]) {
                            Ok(field) => {
                                let ghost before = options@;
                                options.push(field);
                                assert(crate::package::fields_view(options@) =~= crate::package::fields_view(before).push(options@.last()@));
                            },
                            Err(e) => {
                                proof {
                                    lemma_options_err_stays(self.nodes@, node as int, o.options@, q + 1, o.options@.len() as int);
                                    assert(o.options@.take(o.options@.len() as int) =~= o.options@);
                                    lemma_entries_err_stays(self.nodes@, node as int, fields@, k + 1, fields@.len() as int);
                                    assert(fields@.take(fields@.len() as int) =~= fields@);
                                }
                                return Err(e);
                            },
                        }
                        q = q + 1;
                    }
                    assert(o.options@.take(o.options@.len() as int) =~= o.options@);
                    let ghost before = entries@;
                    entries.push(MessageEntry::OneOf(OneOfGroup { name: o.name.clone(), options }));
                    assert(crate::package::message_entries_view(entries@) =~= crate::package::message_entries_view(before).push(entries@.last()@));
                },
            }
            k = k + 1;
        }
        assert(fields@.take(fields@.len() as int) =~= fields@);
        Ok(entries)
    }

    /// The scope of node `node`, resolved, with the declaration paths under it.
    pub fn resolve(&self, node: usize) -> (r: Result<ResolveResult, ProtoError>)
        requires
            self.wf(),
            0 < node < self.nodes@.len(),
        ensures
            match node_resolved(self.nodes@, node as int) {
                Ok((sv, ps)) => r matches Ok(x) && x.scope@ == sv && paths_view(x.declaration_paths@) == ps,
                Err(e) => r matches Err(x) && x@ == ProtoErrorV::Other(e),
            },
        decreases self.nodes@.len() - node,
    {
        let ghost cs = self.nodes@[node as int].children@;
        let n = self.nodes[node].children.len();
        let mut children: Vec<ProtoScope> = Vec::new();
        let mut declaration_paths: Vec<(usize, Vec<String>)> = Vec::new();
        let mut k: usize = 0;
        while k < n
            invariant
                self.wf(),
                0 < node < self.nodes@.len(),
                cs == self.nodes@[node as int].children@,
                n == cs.len(),
                k <= n,
                children_resolved(self.nodes@, node as int, cs.take(k as int)) matches Ok((ss, ps))
                    && scopes_view(children@) == ss && paths_view(declaration_paths@) == ps,
            decreases n - k,
        {
            let child = self.nodes[node].children[k];
            proof {
                assert(cs.take(k + 1).drop_last() =~= cs.take(k as int));
                assert(cs.take(k + 1).last() == child);
                assert(node < child < self.nodes@.len());
            }
            let result = match self.resolve(child) {
                Ok(x) => x,
                Err(e) => {
                    proof {
                        lemma_children_err_stays(self.nodes@, node as int, cs, k + 1, n as int);
                        assert(cs.take(n as int) =~= cs);
                    }
                    return Err(e);
                },
            };
            let ResolveResult { scope, declaration_paths: mut child_paths } = result;
            let name = match self.name(child) {
                Some(x) => x,
                None => String::new(),
            };
            let ghost prev_paths = paths_view(declaration_paths@);
            let ghost cps = paths_view(child_paths@);
            let ghost nm = name@;
            proof {
                lemma_scopes_view_push(children@, scope);
            }
            children.push(scope);
            let ghost total = child_paths@.len();
            let ghost orig = child_paths@;
            while child_paths.len() > 0
                invariant
                    orig.len() == total,
                    child_paths@.len() <= total,
                    cps == paths_view(orig),
                    child_paths@ == orig.subrange(total - child_paths@.len(), total as int),
                    paths_view(declaration_paths@) == prev_paths + cps.subrange(0, total - child_paths@.len()).map_values(
                        |p: (nat, Seq<Seq<char>>)| (p.0, p.1.push(nm)),
                    ),
                    nm == name@,
                decreases child_paths@.len(),
            {
                let ghost done = total - child_paths@.len();
                let ghost cp_before = child_paths@;
                assert(cp_before[0] == orig[done]);
                let (id, mut path) = child_paths.remove(0);
                let ghost before = declaration_paths@;
                let ghost path0 = path@;
                assert(orig[done].0 == id && orig[done].1@ == path0);
                path.push(name.clone());
                declaration_paths.push((id, path));
                proof {
                    assert(child_paths@ =~= orig.subrange(total - child_paths@.len(), total as int));
                    assert(views(path@) =~= views(orig[done].1@).push(nm));
                    assert(cps.subrange(0, done + 1) =~= cps.subrange(0, done).push(cps[done]));
                    assert(paths_view(declaration_paths@) =~= paths_view(before).push((id as nat, views(path@))));
                    assert(paths_view(declaration_paths@) =~= prev_paths + cps.subrange(0, done + 1).map_values(
                        |p: (nat, Seq<Seq<char>>)| (p.0, p.1.push(nm)),
                    ));
                }
            }
            assert(cps.subrange(0, total as int) =~= cps);
            k = k + 1;
        }
        assert(cs.take(n as int) =~= cs);
        let scope = match &self.nodes[node].data {
            ScopeData::Root => {
                return Err(ProtoError::Other(String::new()));
            },
            ScopeData::Package(p) => ProtoScope::Package(PackageScope { children, name: p.clone() }),
            ScopeData::File(f, _) => ProtoScope::File(FileScope { children, name: f.clone() }),
            ScopeData::Enum(e) => {
                let ghost before = declaration_paths@;
                let no_names: Vec<String> = Vec::new();
                assert(views(no_names@) =~= Seq::<Seq<char>>::empty());
                declaration_paths.push((e.id, no_names));
                assert(paths_view(declaration_paths@) =~= paths_view(before).push((e.id as nat, Seq::<Seq<char>>::empty())));
                ProtoScope::Enum(EnumScope { id: e.id, name: e.name.clone(), entries: copy_enum_entries(&e.entries) })
            },
            ScopeData::Message(id, name, fields) => {
                let entries = self.resolve_entries(node, fields)?;
                let ghost before = declaration_paths@;
                let no_names: Vec<String> = Vec::new();
                assert(views(no_names@) =~= Seq::<Seq<char>>::empty());
                declaration_paths.push((*id, no_names));
                assert(paths_view(declaration_paths@) =~= paths_view(before).push((*id as nat, Seq::<Seq<char>>::empty())));
                ProtoScope::Message(MessageScope { id: *id, name: name.clone(), children, entries })
            },
        };
        Ok(ResolveResult { scope, declaration_paths })
    }
}

/// A copy of a list of enum entries.
fn copy_enum_entries(a: &Vec<crate::package::EnumEntry>) -> (r: Vec<crate::package::EnumEntry>)
    ensures
        crate::package::enum_entries_view(r@) == crate::package::enum_entries_view(a@),
{
    let mut r: Vec<crate::package::EnumEntry> = Vec::new();
    let mut i: usize = 0;
    while i < a.len()
        invariant
            i <= a@.len(),
            r@.len() == i,
            forall|k: int| 0 <= k < i ==> (#[trigger] r@[k])@ == a@[k]@,
        decreases a@.len() - i,
    {
        r.push(crate::package::EnumEntry { name: a[i].name.clone(), value: a[i].value });
        i = i + 1;
    }
    assert(crate::package::enum_entries_view(r@) =~= crate::package::enum_entries_view(a@));
    r
}

proof fn lemma_entries_err_stays(nodes: Seq<ScopeNode>, i: int, fs: Seq<FieldOrOneOf>, j: int, n: int)
    requires
        0 <= j <= n <= fs.len(),
        entries_resolved(nodes, i, fs.take(j)) is Err,
    ensures
        entries_resolved(nodes, i, fs.take(n)) == entries_resolved(nodes, i, fs.take(j)),
    decreases n - j,
{
    if n > j {
        lemma_entries_err_stays(nodes, i, fs, j, n - 1);
        assert(fs.take(n).drop_last() =~= fs.take(n - 1));
    }
}

proof fn lemma_options_err_stays(nodes: Seq<ScopeNode>, i: int, os: Seq<FieldDeclaration>, j: int, n: int)
    requires
        0 <= j <= n <= os.len(),
        options_resolved(nodes, i, os.take(j)) is Err,
    ensures
        options_resolved(nodes, i, os.take(n)) == options_resolved(nodes, i, os.take(j)),
    decreases n - j,
{
    if n > j {
        lemma_options_err_stays(nodes, i, os, j, n - 1);
        assert(os.take(n).drop_last() =~= os.take(n - 1));
    }
}

proof fn lemma_children_err_stays(nodes: Seq<ScopeNode>, i: int, cs: Seq<usize>, j: int, n: int)
    requires
        0 <= j <= n <= cs.len(),
        children_resolved(nodes, i, cs.take(j)) is Err,
    ensures
        children_resolved(nodes, i, cs.take(n)) == children_resolved(nodes, i, cs.take(j)),
    decreases n - j,
{
    if n > j {
        lemma_children_err_stays(nodes, i, cs, j, n - 1);
        assert(cs.take(n).drop_last() =~= cs.take(n - 1));
    }
}


/// Records each declaration path of a child named `name`, completed with that name and
/// turned to run from the root down; a later path for an id replaces an earlier one.
pub open spec fn insert_all(types: Map<usize, Seq<Seq<char>>>, ps: Seq<(nat, Seq<Seq<char>>)>, name: Seq<char>) -> Map<usize, Seq<Seq<char>>>
    decreases ps.len(),
{
    if ps.len() == 0 {
        types
    } else {
        insert_all(types, ps.drop_last(), name).insert(ps.last().0 as usize, ps.last().1.push(name).reverse())
    }
}

/// The model of the recorded name paths by id.
pub open spec fn types_view(m: Map<usize, Vec<String>>) -> Map<usize, Seq<Seq<char>>> {
    m.map_values(|v: Vec<String>| views(v@))
}

/// The children `cs` of the root resolved, and the name paths of all declarations.
pub open spec fn root_resolved(nodes: Seq<ScopeNode>, cs: Seq<usize>) -> Result<(Seq<ProtoScopeV>, Map<usize, Seq<Seq<char>>>), Seq<char>>
    decreases cs.len(),
{
    if cs.len() == 0 {
        Ok((Seq::empty(), Map::empty()))
    } else {
        match root_resolved(nodes, cs.drop_last()) {
            Err(e) => Err(e),
            Ok((scopes, types)) => {
                let c = cs.last();
                if 0 < c < nodes.len() {
                    match node_resolved(nodes, c as int) {
                        Err(e) => Err(e),
                        Ok((sc, ps)) => Ok((scopes.push(sc), insert_all(types, ps, name_or_empty(nodes[c as int])))),
                    }
                } else {
                    Err(Seq::empty())
                }
            },
        }
    }
}

/// The names in reverse order.
fn reversed(v: &Vec<String>) -> (r: Vec<String>)
    ensures
        views(r@) == views(v@).reverse(),
        r@.len() == v@.len(),
{
    let mut r: Vec<String> = Vec::new();
    let mut i: usize = v.len();
    while i > 0
        invariant
            i <= v@.len(),
            r@.len() == v@.len() - i,
            forall|k: int| 0 <= k < r@.len() ==> (#[trigger] r@[k])@ == v@[v@.len() - 1 - k]@,
        decreases i,
    {
        i = i - 1;
        r.push(v[i].clone());
    }
    assert(views(r@) =~= views(v@).reverse());
    r
}

impl ScopeBuilder {
    /// The resolved scope tree, with the name path of each declaration from the root.
    pub fn finish(&self) -> (r: Result<RootScope, ProtoError>)
        requires
            self.wf(),
        ensures
            match root_resolved(self.nodes@, self.nodes@[0].children@) {
                Ok((ss, ts)) => r matches Ok(root) && scopes_view(root.scopes()) == ss && types_view(root.type_paths()) == ts,
                Err(e) => r matches Err(x) && x@ == ProtoErrorV::Other(e),
            },
    {
        let ghost cs = self.nodes@[0].children@;
        let n = self.nodes[0].children.len();
        let mut children: Vec<ProtoScope> = Vec::new();
        let mut types: HashMap<usize, Vec<String>> = HashMap::new();
        let mut k: usize = 0;
        while k < n
            invariant
                self.wf(),
                cs == self.nodes@[0].children@,
                n == cs.len(),
                k <= n,
                root_resolved(self.nodes@, cs.take(k as int)) matches Ok((ss, ts))
                    && scopes_view(children@) == ss && types_view(types@) == ts,
                forall|id: usize| #[trigger] types@.contains_key(id) ==> types@[id]@.len() > 0,
            decreases n - k,
        {
            let child = self.nodes[0].children[k];
            proof {
                assert(cs.take(k + 1).drop_last() =~= cs.take(k as int));
                assert(cs.take(k + 1).last() == child);
                assert(0 < child < self.nodes@.len());
            }
            let result = match self.resolve(child) {
                Ok(x) => x,
                Err(e) => {
                    proof {
                        lemma_root_err_stays(self.nodes@, cs, k + 1, n as int);
                        assert(cs.take(n as int) =~= cs);
                    }
                    return Err(e);
                },
            };
            let ResolveResult { scope, declaration_paths: mut paths } = result;
            let name = match self.name(child) {
                Some(x) => x,
                None => String::new(),
            };
            proof {
                lemma_scopes_view_push(children@, scope);
            }
            children.push(scope);
            let ghost ts0 = types_view(types@);
            let ghost ps = paths_view(paths@);
            let ghost orig = paths@;
            let ghost total = paths@.len();
            while paths.len() > 0
                invariant
                    orig.len() == total,
                    paths@.len() <= total,
                    ps == paths_view(orig),
                    paths@ == orig.subrange(total - paths@.len(), total as int),
                    types_view(types@) == insert_all(ts0, ps.subrange(0, total - paths@.len()), name@),
                    forall|id: usize| #[trigger] types@.contains_key(id) ==> types@[id]@.len() > 0,
                decreases paths@.len(),
            {
                let ghost done = total - paths@.len();
                let ghost before_paths = paths@;
                assert(before_paths[0] == orig[done]);
                let (id, mut path) = paths.remove(0);
                proof {
                    assert(paths@ =~= orig.subrange(total - paths@.len(), total as int));
                }
                path.push(name.clone());
                let full = reversed(&path);
                let ghost before_types = types@;
                types.insert(id, full);
                proof {
                    let sub = ps.subrange(0, done + 1);
                    assert(sub.drop_last() =~= ps.subrange(0, done));
                    assert(sub.last() == ps[done]);
                    assert(views(path@) =~= ps[done].1.push(name@));
                    assert(types@ == before_types.insert(id, full));
                    assert(types_view(types@) =~= types_view(before_types).insert(id, views(full@)));
                }
            }
            assert(ps.subrange(0, total as int) =~= ps);
            k = k + 1;
        }
        assert(cs.take(n as int) =~= cs);
        Ok(RootScope::new(children, types))
    }
}

proof fn lemma_root_err_stays(nodes: Seq<ScopeNode>, cs: Seq<usize>, j: int, n: int)
    requires
        0 <= j <= n <= cs.len(),
        root_resolved(nodes, cs.take(j)) is Err,
    ensures
        root_resolved(nodes, cs.take(n)) == root_resolved(nodes, cs.take(j)),
    decreases n - j,
{
    if n > j {
        lemma_root_err_stays(nodes, cs, j, n - 1);
        assert(cs.take(n).drop_last() =~= cs.take(n - 1));
    }
}


/// The package found first among `cs` is still found first once more children are
/// appended and the nodes grow.
proof fn lemma_first_package_child_stable(a: Seq<ScopeNode>, b: Seq<ScopeNode>, cs: Seq<usize>, cs2: Seq<usize>, name: Seq<char>)
    requires
        extends(a, b),
        first_package_child(a, cs, name) is Some,
        cs.len() <= cs2.len(),
        cs2.subrange(0, cs.len() as int) == cs,
        forall|k: int| 0 <= k < cs.len() ==> #[trigger] cs[k] < a.len(),
    ensures
        first_package_child(b, cs2, name) == first_package_child(a, cs, name),
    decreases cs.len(),
{
    assert(cs2[0] == cs[0]);
    assert(b[cs[0] as int].data == a[cs[0] as int].data);
    if !(a[cs[0] as int].data matches ScopeData::Package(n) && n@ == name) {
        assert(cs2.drop_first().subrange(0, cs.drop_first().len() as int) =~= cs.drop_first());
        assert forall|k: int| 0 <= k < cs.drop_first().len() implies #[trigger] cs.drop_first()[k] < a.len() by {
            assert(cs.drop_first()[k] == cs[k + 1]);
        }
        lemma_first_package_child_stable(a, b, cs.drop_first(), cs2.drop_first(), name);
    }
}

/// Where no package `name` is among `cs`, the package `p` appended after them is the
/// one found first.
proof fn lemma_first_package_child_appended(a: Seq<ScopeNode>, b: Seq<ScopeNode>, cs: Seq<usize>, cs2: Seq<usize>, name: Seq<char>, p: usize)
    requires
        extends(a, b),
        first_package_child(a, cs, name) is None,
        cs.len() < cs2.len(),
        cs2.subrange(0, cs.len() as int + 1) == cs.push(p),
        b[p as int].data matches ScopeData::Package(n) && n@ == name,
        forall|k: int| 0 <= k < cs.len() ==> #[trigger] cs[k] < a.len(),
    ensures
        first_package_child(b, cs2, name) == Some(p),
    decreases cs.len(),
{
    let sub = cs2.subrange(0, cs.len() as int + 1);
    assert(sub[0] == cs2[0]);
    if cs.len() == 0 {
        assert(cs.push(p)[0] == p);
    } else {
        assert(cs.push(p)[0] == cs[0]);
        assert(b[cs[0] as int].data == a[cs[0] as int].data);
        assert(sub.drop_first() =~= cs.drop_first().push(p));
        assert(cs2.drop_first().subrange(0, cs.drop_first().len() as int + 1) =~= sub.drop_first());
        assert forall|k: int| 0 <= k < cs.drop_first().len() implies #[trigger] cs.drop_first()[k] < a.len() by {
            assert(cs.drop_first()[k] == cs[k + 1]);
        }
        lemma_first_package_child_appended(a, b, cs.drop_first(), cs2.drop_first(), name, p);
    }
}

} // verus!
