//! The resolved scope tree: packages, files, messages and enums, with the
//! field types of each message resolved.
use vstd::prelude::*;
use crate::package::{Field, EnumEntry, EnumEntryV, MessageEntry, MessageEntryV, message_entries_view, enum_entries_view};
use crate::protopath::{PathComponent, PathComponentV, ProtoPath};
use crate::text::{views, str_eq};
use std::collections::HashMap;

verus! {

/// A package and what it holds.
#[derive(Debug)]
pub struct PackageScope {
    pub children: Vec<ProtoScope>,
    pub name: String,
}

/// A file and the declarations in it.
#[derive(Debug)]
pub struct FileScope {
    pub name: String,
    pub children: Vec<ProtoScope>,
}

/// An enum.
#[derive(Debug)]
pub struct EnumScope {
    pub id: usize,
    pub name: String,
    pub entries: Vec<EnumEntry>,
}

/// A message: its resolved entries and its nested declarations.
#[derive(Debug)]
pub struct MessageScope {
    pub id: usize,
    pub name: String,
    pub children: Vec<ProtoScope>,
    pub entries: Vec<MessageEntry>,
}

/// A node of the scope tree.
#[derive(Debug)]
pub enum ProtoScope {
    Package(PackageScope),
    File(FileScope),
    Enum(EnumScope),
    Message(MessageScope),
}

/// Model of a node of the scope tree.
pub enum ProtoScopeV {
    Package { name: Seq<char>, children: Seq<ProtoScopeV> },
    File { name: Seq<char>, children: Seq<ProtoScopeV> },
    Enum { id: nat, name: Seq<char>, values: Seq<EnumEntryV> },
    Message { id: nat, name: Seq<char>, children: Seq<ProtoScopeV>, entries: Seq<MessageEntryV> },
}

/// The model of a scope.
pub open spec fn scope_view(s: ProtoScope) -> ProtoScopeV
    decreases s, 0int,
{
    match s {
        ProtoScope::Package(p) => ProtoScopeV::Package { name: p.name@, children: scopes_view(p.children@) },
        ProtoScope::File(f) => ProtoScopeV::File { name: f.name@, children: scopes_view(f.children@) },
        ProtoScope::Enum(e) => ProtoScopeV::Enum { id: e.id as nat, name: e.name@, values: enum_entries_view(e.entries@) },
        ProtoScope::Message(m) => ProtoScopeV::Message {
            id: m.id as nat,
            name: m.name@,
            children: scopes_view(m.children@),
            entries: message_entries_view(m.entries@),
        },
    }
}

/// The models of a list of scopes.
pub open spec fn scopes_view(s: Seq<ProtoScope>) -> Seq<ProtoScopeV>
    decreases s, s.len(),
{
    if s.len() == 0 {
        Seq::empty()
    } else {
        scopes_view(s.subrange(0, s.len() - 1)).push(scope_view(s[s.len() - 1]))
    }
}

impl View for ProtoScope {
    type V = ProtoScopeV;

    open spec fn view(&self) -> ProtoScopeV {
        scope_view(*self)
    }
}

pub proof fn lemma_scopes_view_push(s: Seq<ProtoScope>, x: ProtoScope)
    ensures
        scopes_view(s.push(x)) == scopes_view(s).push(x@),
{
    assert(s.push(x).subrange(0, s.len() as int) =~= s);
}

/// The name of a scope.
pub open spec fn scope_name(s: ProtoScope) -> Seq<char> {
    match s {
        ProtoScope::Package(p) => p.name@,
        ProtoScope::File(f) => f.name@,
        ProtoScope::Enum(e) => e.name@,
        ProtoScope::Message(m) => m.name@,
    }
}

/// The scopes directly inside a scope.
pub open spec fn scope_children(s: ProtoScope) -> Seq<ProtoScope> {
    match s {
        ProtoScope::Package(p) => p.children@,
        ProtoScope::File(f) => f.children@,
        ProtoScope::Enum(_) => Seq::empty(),
        ProtoScope::Message(m) => m.children@,
    }
}

/// The path step that leads to a scope.
pub open spec fn scope_component(s: ProtoScope) -> PathComponentV {
    match s {
        ProtoScope::Package(p) => PathComponentV::Package(p.name@),
        ProtoScope::File(f) => PathComponentV::File(f.name@),
        ProtoScope::Enum(e) => PathComponentV::Enum(e.name@),
        ProtoScope::Message(m) => PathComponentV::Message(m.name@),
    }
}

impl ProtoScope {
    /// The id of a declaration; packages and files have none.
    pub fn id(&self) -> (r: Option<usize>)
        ensures
            r == match *self {
                ProtoScope::Enum(e) => Some(e.id),
                ProtoScope::Message(m) => Some(m.id),
                _ => None::<usize>,
            },
    {
        match self {
            ProtoScope::Package(_) => None,
            ProtoScope::File(_) => None,
            ProtoScope::Enum(e) => Some(e.id),
            ProtoScope::Message(m) => Some(m.id),
        }
    }

    /// The path step that leads to this scope.
    pub fn as_path_component(&self) -> (r: PathComponent)
        ensures
            r@ == scope_component(*self),
    {
        match self {
            ProtoScope::Package(_) => PathComponent::Package(self.name()),
            ProtoScope::File(_) => PathComponent::File(self.name()),
            ProtoScope::Enum(_) => PathComponent::Enum(self.name()),
            ProtoScope::Message(_) => PathComponent::Message(self.name()),
        }
    }

    /// The message, where this scope is one.
    pub fn get_message_declaration(&self) -> (r: Option<&MessageScope>)
        ensures
            r == match *self {
                ProtoScope::Message(m) => Some(&m),
                _ => None::<&MessageScope>,
            },
    {
        match self {
            ProtoScope::Message(m) => Some(m),
            _ => None,
        }
    }

    /// The name of the scope.
    pub fn name(&self) -> (r: String)
        ensures
            r@ == scope_name(*self),
    {
        match self {
            ProtoScope::Package(p) => p.name.clone(),
            ProtoScope::File(f) => f.name.clone(),
            ProtoScope::Enum(e) => e.name.clone(),
            ProtoScope::Message(m) => m.name.clone(),
        }
    }

    /// The scopes directly inside this one.
    pub fn children(&self) -> (r: &[ProtoScope])
        ensures
            r@ == scope_children(*self),
    {
        match self {
            ProtoScope::Package(p) => p.children.as_slice(),
            ProtoScope::File(f) => f.children.as_slice(),
            ProtoScope::Enum(_) => &[],
            ProtoScope::Message(m) => m.children.as_slice(),
        }
    }

    /// Whether the scope is a file.
    pub fn is_file(&self) -> (r: bool)
        ensures
            r == (*self is File),
    {
        matches!(self, ProtoScope::File(_))
    }

    /// Whether the scope is a package.
    pub fn is_package(&self) -> (r: bool)
        ensures
            r == (*self is Package),
    {
        matches!(self, ProtoScope::Package(_))
    }

    /// Whether the scope is an enum.
    pub fn is_enum(&self) -> (r: bool)
        ensures
            r == (*self is Enum),
    {
        matches!(self, ProtoScope::Enum(_))
    }

    /// Answers as `is_enum` does: true for an enum, false for a message.
    pub fn is_message(&self) -> (r: bool)
        ensures
            r == (*self is Enum),
    {
        matches!(self, ProtoScope::Enum(_))
    }

    /// `is_enum() || is_message()`.
    pub fn is_declaration(&self) -> (r: bool)
        ensures
            r == (*self is Enum),
    {
        self.is_enum() || self.is_message()
    }
}

/// The index of the first of `children` named `name`.
pub open spec fn first_named(children: Seq<ProtoScope>, name: Seq<char>) -> Option<int>
    decreases children.len(),
{
    if children.len() == 0 {
        None
    } else if scope_name(children[0]) == name {
        Some(0)
    } else {
        match first_named(children.drop_first(), name) {
            Some(i) => Some(i + 1),
            None => None,
        }
    }
}

proof fn lemma_first_named_range(children: Seq<ProtoScope>, name: Seq<char>)
    ensures
        first_named(children, name) matches Some(i) ==> 0 <= i < children.len()
            && scope_name(children[i]) == name,
    decreases children.len(),
{
    if children.len() > 0 && scope_name(children[0]) != name {
        lemma_first_named_range(children.drop_first(), name);
    }
}

/// The first of `children` named `name`.
pub fn resolve_name<'a>(children: &'a [ProtoScope], name: &str) -> (r: Option<&'a ProtoScope>)
    ensures
        r == match first_named(children@, name@) {
            Some(i) => Some(&children@[i]),
            None => None::<&ProtoScope>,
        },
{
    proof {
        lemma_first_named_range(children@, name@);
        assert(children@.skip(0) =~= children@);
    }
    let mut i: usize = 0;
    while i < children.len()
        invariant
            i <= children@.len(),
            first_named(children@, name@) == (match first_named(children@.skip(i as int), name@) {
                Some(k) => Some(k + i),
                None => None,
            }),
        decreases children@.len() - i,
    {
        assert(children@.skip(i as int)[0] == children@[i as int]);
        assert(children@.skip(i as int).drop_first() =~= children@.skip(i + 1));
        let n = children[i].name();
        if str_eq(n.as_str(), name) {
            return Some(&children[i]);
        }
        i = i + 1;
    }
    None
}

/// The path steps met by following `names` down from `children`, one name per level.
pub open spec fn resolve_names(children: Seq<ProtoScope>, names: Seq<Seq<char>>) -> Option<Seq<PathComponentV>>
    decreases names.len(),
{
    if names.len() == 0 {
        Some(Seq::empty())
    } else {
        match first_named(children, names[0]) {
            None => None,
            Some(i) => match resolve_names(scope_children(children[i]), names.drop_first()) {
                None => None,
                Some(rest) => Some(seq![scope_component(children[i])] + rest),
            },
        }
    }
}

/// The root of the scope tree, with the name path of each declaration by id.
#[derive(Debug)]
pub struct RootScope {
    pub(crate) children: Vec<ProtoScope>,
    pub(crate) types: HashMap<usize, Vec<String>>,
}

/// The name path recorded for `id`.
pub open spec fn type_names(types: Map<usize, Vec<String>>, id: usize) -> Option<Seq<Seq<char>>> {
    if types.contains_key(id) {
        Some(views(types[id]@))
    } else {
        None
    }
}

impl RootScope {
    /// The scopes at the top of the tree.
    pub closed spec fn scopes(&self) -> Seq<ProtoScope> {
        self.children@
    }

    /// The name path of each declaration from the root, by id.
    pub closed spec fn type_paths(&self) -> Map<usize, Vec<String>> {
        self.types@
    }

    /// Each recorded name path has at least one name: every root scope holds this.
    #[verifier::type_invariant]
    pub closed spec fn wf(&self) -> bool {
        forall|id: usize| #[trigger] self.types@.contains_key(id) ==> self.types@[id]@.len() > 0
    }

    /// In a well-formed root, each recorded name path has a name.
    pub proof fn lemma_wf_paths_nonempty(self, id: usize)
        requires
            self.wf(),
        ensures
            type_names(self.type_paths(), id) matches Some(ns) ==> ns.len() > 0,
    {
        if self.types@.contains_key(id) {
            assert(self.types@[id]@.len() > 0);
        }
    }

    /// The root of the given scopes and name paths; each path has a name.
    pub fn new(children: Vec<ProtoScope>, types: HashMap<usize, Vec<String>>) -> (r: RootScope)
        requires
            forall|id: usize| #[trigger] types@.contains_key(id) ==> types@[id]@.len() > 0,
        ensures
            r.scopes() == children@,
            r.type_paths() == types@,
    {
        RootScope { children, types }
    }

    /// The scopes at the top of the tree.
    pub fn children(&self) -> (r: &Vec<ProtoScope>)
        ensures
            r@ == self.scopes(),
    {
        &self.children
    }

    /// The name path of each declaration from the root, by id.
    pub fn types(&self) -> (r: &HashMap<usize, Vec<String>>)
        ensures
            r@ == self.type_paths(),
    {
        &self.types
    }

    /// The name path recorded for `decl_id`.
    fn find_type(&self, decl_id: usize) -> (r: Option<&Vec<String>>)
        ensures
            match type_names(self.type_paths(), decl_id) {
                Some(ns) => r matches Some(v) && views(v@) == ns && *v == self.type_paths()[decl_id],
                None => r is None,
            },
    {
        self.types.get(&decl_id)
    }

    /// The path of the declaration `decl_id`, found by following its recorded names
    /// down from the root.
    pub fn get_declaration_path(&self, decl_id: usize) -> (r: Option<ProtoPath>)
        requires
            type_names(self.type_paths(), decl_id) matches Some(ns) ==> ns.len() > 0,
        ensures
            match type_names(self.type_paths(), decl_id) {
                Some(ns) => match resolve_names(self.scopes(), ns) {
                    Some(p) => r matches Some(path) && path@ == p,
                    None => r is None,
                },
                None => r is None,
            },
    {
        let names = match self.find_type(decl_id) {
            Some(v) => v,
            None => return None,
        };
        let ghost ns = views(names@);
        let mut res = ProtoPath::new();
        let mut current: &[ProtoScope] = self.children.as_slice();
        let mut i: usize = 0;
        assert(ns.skip(0) =~= ns);
        while i < names.len()
            invariant
                i <= names@.len(),
                ns == views(names@),
                type_names(self.type_paths(), decl_id) == Some(ns),
                resolve_names(self.scopes(), ns) == match resolve_names(current@, ns.skip(i as int)) {
                    Some(rest) => Some(res@ + rest),
                    None => None,
                },
            decreases names@.len() - i,
        {
            proof {
                assert(ns.skip(i as int)[0] == names@[i as int]@);
                assert(ns.skip(i as int).drop_first() =~= ns.skip(i + 1));
                lemma_first_named_range(current@, names@[i as int]@);
            }
            match resolve_name(current, names[i].as_str()) {
                Some(scope) => {
                    let ghost before = res@;
                    res.push(scope.as_path_component());
                    proof {
                        assert forall|rest: Seq<PathComponentV>| #![auto] before + (seq![scope_component(*scope)] + rest)
                            == res@ + rest by {
                            assert(before + (seq![scope_component(*scope)] + rest) =~= res@ + rest);
                        }
                    }
                    current = scope.children();
                },
                None => return None,
            }
            i = i + 1;
        }
        assert(ns.skip(names@.len() as int) =~= Seq::<Seq<char>>::empty());
        assert(res@ + Seq::<PathComponentV>::empty() =~= res@);
        Some(res)
    }

    /// The last recorded name of the declaration `decl_id`.
    pub fn get_declaration_name(&self, decl_id: usize) -> (r: Option<String>)
        requires
            type_names(self.type_paths(), decl_id) matches Some(ns) ==> ns.len() > 0,
        ensures
            match type_names(self.type_paths(), decl_id) {
                Some(ns) => r matches Some(n) && n@ == ns.last(),
                None => r is None,
            },
    {
        match self.find_type(decl_id) {
            Some(v) => Some(v[v.len() - 1].clone()),
            None => None,
        }
    }
}


/// The fields of a message in order, the options of each group in place of the group.
pub open spec fn message_fields_of(entries: Seq<MessageEntry>) -> Seq<Field>
    decreases entries.len(),
{
    if entries.len() == 0 {
        Seq::empty()
    } else {
        message_fields_of(entries.drop_last()) + match entries.last() {
            MessageEntry::Field(f) => seq![f],
            MessageEntry::OneOf(g) => g.options@,
        }
    }
}

/// A copy of a field.
pub fn copy_field(f: &Field) -> (r: Field)
    ensures
        r@ == f@,
{
    let mut attributes: Vec<(String, String)> = Vec::new();
    let mut i: usize = 0;
    while i < f.attributes.len()
        invariant
            i <= f.attributes@.len(),
            attributes@.len() == i,
            forall|k: int| 0 <= k < i ==> #[trigger] attributes@[k].0@ == f.attributes@[k].0@ && attributes@[k].1@ == f.attributes@[k].1@,
        decreases f.attributes@.len() - i,
    {
        attributes.push((f.attributes[i].0.clone(), f.attributes[i].1.clone()));
        i = i + 1;
    }
    assert(crate::package::attributes_view(attributes@) =~= crate::package::attributes_view(f.attributes@));
    Field { name: f.name.clone(), field_type: f.field_type.duplicate(), tag: f.tag, attributes }
}

impl MessageScope {
    /// The fields of the message, the options of each group in place of the group.
    pub fn get_fields(&self) -> (r: Vec<Field>)
        ensures
            crate::package::fields_view(r@) == crate::package::fields_view(message_fields_of(self.entries@)),
    {
        let mut res: Vec<Field> = Vec::new();
        let mut k: usize = 0;
        while k < self.entries.len()
            invariant
                k <= self.entries@.len(),
                crate::package::fields_view(res@) == crate::package::fields_view(message_fields_of(self.entries@.take(k as int))),
            decreases self.entries@.len() - k,
        {
            proof {
                assert(self.entries@.take(k + 1).drop_last() =~= self.entries@.take(k as int));
                assert(self.entries@.take(k + 1).last() == self.entries@[k as int]);
            }
            let ghost before = res@;
            match &self.entries[k] {
                MessageEntry::Field(f) => {
                    res.push(copy_field(f));
                    assert(crate::package::fields_view(res@) =~= crate::package::fields_view(before + seq![*f]));
                },
                MessageEntry::OneOf(g) => {
                    let mut q: usize = 0;
                    while q < g.options.len()
                        invariant
                            q <= g.options@.len(),
                            crate::package::fields_view(res@) == crate::package::fields_view(before + g.options@.take(q as int)),
                        decreases g.options@.len() - q,
                    {
                        let ghost prev = res@;
                        res.push(copy_field(&g.options[q]));
                        assert(crate::package::fields_view(res@) =~= crate::package::fields_view(prev).push(res@.last()@));
                        assert((before + g.options@.take(q + 1)) =~= (before + g.options@.take(q as int)).push(g.options@[q as int]));
                        assert(crate::package::fields_view(before + g.options@.take(q + 1)) =~= crate::package::fields_view(
                            before + g.options@.take(q as int),
                        ).push(g.options@[q as int]@));
                        q = q + 1;
                    }
                    assert(g.options@.take(g.options@.len() as int) =~= g.options@);
                },
            }
            proof {
                assert(crate::package::fields_view(message_fields_of(self.entries@.take(k + 1))) =~= crate::package::fields_view(
                    message_fields_of(self.entries@.take(k as int)),
                ) + crate::package::fields_view(match self.entries@[k as int] {
                    MessageEntry::Field(f) => seq![f],
                    MessageEntry::OneOf(g) => g.options@,
                }));
            }
            k = k + 1;
        }
        assert(self.entries@.take(self.entries@.len() as int) =~= self.entries@);
        res
    }
}

} // verus!
