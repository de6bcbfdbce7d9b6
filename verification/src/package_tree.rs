//! Parsed files arranged by package: each package a node, its files and its
//! sub-packages below it.
use vstd::prelude::*;
use crate::error::{ProtoError, ProtoErrorV};
use crate::package::ProtoFile;
use crate::text::{join, str_eq, views};

verus! {

/// A package, its files and its sub-packages. For example the file
/// `GDX/Roles/nullableTypes.proto` gives a node `GDX` holding a node `Roles` that
/// holds the file.
#[derive(Debug)]
pub struct PackageTree {
    pub children: Vec<PackageTree>,
    pub files: Vec<ProtoFile>,
    pub name: String,
}

/// The index of the first tree among `cs` named `name`.
pub open spec fn first_named_tree(cs: Seq<PackageTree>, name: Seq<char>) -> Option<int>
    decreases cs.len(),
{
    if cs.len() == 0 {
        None
    } else if cs[0].name@ == name {
        Some(0)
    } else {
        match first_named_tree(cs.drop_first(), name) {
            Some(i) => Some(i + 1),
            None => None,
        }
    }
}

/// The sub-tree reached from `t` by following, for each name of `path`, the first
/// child of that name.
pub open spec fn subtree_at(t: PackageTree, path: Seq<Seq<char>>) -> Option<PackageTree>
    decreases path.len(),
{
    if path.len() == 0 {
        Some(t)
    } else {
        match first_named_tree(t.children@, path[0]) {
            Some(i) => subtree_at(t.children@[i], path.drop_first()),
            None => None,
        }
    }
}

proof fn lemma_first_named_tree(cs: Seq<PackageTree>, name: Seq<char>)
    ensures
        first_named_tree(cs, name) matches Some(i) ==> 0 <= i < cs.len() && cs[i].name@ == name
            && forall|j: int| 0 <= j < i ==> #[trigger] cs[j].name@ != name,
        first_named_tree(cs, name) is None ==> forall|j: int| 0 <= j < cs.len() ==> #[trigger] cs[j].name@ != name,
    decreases cs.len(),
{
    if cs.len() > 0 {
        lemma_first_named_tree(cs.drop_first(), name);
        assert forall|j: int| 1 <= j < cs.len() implies #[trigger] cs[j] == cs.drop_first()[j - 1] by {}
    }
}

/// The index of the first file named `name`.
pub open spec fn first_file_named(files: Seq<ProtoFile>, name: Seq<char>) -> Option<int>
    decreases files.len(),
{
    if files.len() == 0 {
        None
    } else if files[0].name@ == name {
        Some(0)
    } else {
        match first_file_named(files.drop_first(), name) {
            Some(i) => Some(i + 1),
            None => None,
        }
    }
}

/// The file named `name` in the package at `path`, if any (the first of that name).
pub open spec fn file_at(t: PackageTree, path: Seq<Seq<char>>, name: Seq<char>) -> Option<ProtoFile> {
    match subtree_at(t, path) {
        Some(s) => match first_file_named(s.files@, name) {
            Some(i) => Some(s.files@[i]),
            None => None,
        },
        None => None,
    }
}

/// No two children share a name, no two files share a name, and so below.
pub open spec fn tree_wf(t: PackageTree) -> bool
    decreases t,
{
    &&& forall|i: int, j: int| 0 <= i < j < t.children@.len() ==> #[trigger] t.children@[i].name@ != #[trigger] t.children@[j].name@
    &&& forall|i: int, j: int| 0 <= i < j < t.files@.len() ==> #[trigger] t.files@[i].name@ != #[trigger] t.files@[j].name@
    &&& forall|i: int| 0 <= i < t.children@.len() ==> tree_wf(#[trigger] t.children@[i])
}

/// `file_at` on a node given by its files and its children.
pub open spec fn file_at_parts(files: Seq<ProtoFile>, children: Seq<PackageTree>, path: Seq<Seq<char>>, name: Seq<char>) -> Option<ProtoFile> {
    if path.len() == 0 {
        match first_file_named(files, name) {
            Some(i) => Some(files[i]),
            None => None,
        }
    } else {
        match first_named_tree(children, path[0]) {
            Some(i) => file_at(children[i], path.drop_first(), name),
            None => None,
        }
    }
}

/// What appending `tree` below `old` gives at a key: the file `old` has there, else
/// the file `tree` has there below its name.
pub open spec fn merged_file(old: PackageTree, tree: PackageTree, path: Seq<Seq<char>>, name: Seq<char>) -> Option<ProtoFile> {
    match file_at(old, path, name) {
        Some(f) => Some(f),
        None => if path.len() > 0 && path[0] == tree.name@ {
            file_at(tree, path.drop_first(), name)
        } else {
            None
        },
    }
}

/// Whether `old` already has a file where appending `tree` would put one.
pub open spec fn conflicts(old: PackageTree, tree: PackageTree) -> bool {
    exists|path: Seq<Seq<char>>, name: Seq<char>|
        (#[trigger] file_at(old, seq![tree.name@] + path, name)) is Some && (#[trigger] file_at(tree, path, name)) is Some
}

/// The error names the two files that would share a place: the one `old` has, then
/// the one `tree` brings.
pub open spec fn conflict_error(old: PackageTree, tree: PackageTree, e: ProtoErrorV) -> bool {
    exists|path: Seq<Seq<char>>, name: Seq<char>|
        (#[trigger] file_at(old, seq![tree.name@] + path, name)) matches Some(a)
        && (#[trigger] file_at(tree, path, name)) matches Some(b)
        && e == (ProtoErrorV::ConflictingFiles { first_path: full_path_text(a), second_path: full_path_text(b) })
}

/// `<packages joined by "/">/<file name>`.
pub open spec fn full_path_text(f: ProtoFile) -> Seq<char> {
    join(views(f.path@), "/"@) + "/"@ + f.name@
}

proof fn lemma_file_at_parts(t: PackageTree, path: Seq<Seq<char>>, name: Seq<char>)
    ensures
        file_at(t, path, name) == file_at_parts(t.files@, t.children@, path, name),
{
}

proof fn lemma_first_named_tree_none(cs: Seq<PackageTree>, name: Seq<char>)
    requires
        forall|j: int| 0 <= j < cs.len() ==> #[trigger] cs[j].name@ != name,
    ensures
        first_named_tree(cs, name) is None,
    decreases cs.len(),
{
    if cs.len() > 0 {
        assert forall|j: int| 0 <= j < cs.drop_first().len() implies #[trigger] cs.drop_first()[j].name@ != name by {
            assert(cs.drop_first()[j] == cs[j + 1]);
        }
        lemma_first_named_tree_none(cs.drop_first(), name);
    }
}

proof fn lemma_first_named_tree_push(cs: Seq<PackageTree>, c: PackageTree, name: Seq<char>)
    ensures
        first_named_tree(cs.push(c), name) == (match first_named_tree(cs, name) {
            Some(i) => Some(i),
            None => if c.name@ == name { Some(cs.len() as int) } else { None },
        }),
    decreases cs.len(),
{
    if cs.len() > 0 {
        let pc = cs.push(c);
        assert(pc.drop_first() =~= cs.drop_first().push(c));
        assert(pc[0] == cs[0]);
        lemma_first_named_tree_push(cs.drop_first(), c, name);
        assert(pc.len() > 0);
        if cs[0].name@ == name {
            assert(first_named_tree(pc, name) == Some(0int));
        } else {
            assert(first_named_tree(pc, name) == (match first_named_tree(pc.drop_first(), name) {
                Some(i) => Some(i + 1),
                None => None,
            }));
        }
    } else {
        assert(cs.push(c).drop_first() =~= Seq::<PackageTree>::empty());
        assert(cs.push(c)[0] == c);
        assert(first_named_tree(cs.push(c).drop_first(), name) is None);
    }
}

proof fn lemma_first_named_tree_update(cs: Seq<PackageTree>, i: int, c: PackageTree, name: Seq<char>)
    requires
        0 <= i < cs.len(),
        c.name@ == cs[i].name@,
    ensures
        first_named_tree(cs.update(i, c), name) == first_named_tree(cs, name),
    decreases cs.len(),
{
    if i > 0 {
        assert(cs.update(i, c).drop_first() =~= cs.drop_first().update(i - 1, c));
        lemma_first_named_tree_update(cs.drop_first(), i - 1, c, name);
    } else {
        assert(cs.update(i, c).drop_first() =~= cs.drop_first());
    }
}

proof fn lemma_first_file_named_push(fs: Seq<ProtoFile>, f: ProtoFile, name: Seq<char>)
    ensures
        first_file_named(fs.push(f), name) == (match first_file_named(fs, name) {
            Some(i) => Some(i),
            None => if f.name@ == name { Some(fs.len() as int) } else { None },
        }),
    decreases fs.len(),
{
    if fs.len() > 0 {
        assert(fs.push(f).drop_first() =~= fs.drop_first().push(f));
        assert(fs.push(f)[0] == fs[0]);
        lemma_first_file_named_push(fs.drop_first(), f, name);
    } else {
        assert(fs.push(f).drop_first() =~= Seq::<ProtoFile>::empty());
        assert(fs.push(f)[0] == f);
        assert(first_file_named(fs.push(f).drop_first(), name) is None);
    }
}

proof fn lemma_first_file_named(fs: Seq<ProtoFile>, name: Seq<char>)
    ensures
        first_file_named(fs, name) matches Some(i) ==> 0 <= i < fs.len() && fs[i].name@ == name
            && forall|j: int| 0 <= j < i ==> #[trigger] fs[j].name@ != name,
        first_file_named(fs, name) is None <==> forall|j: int| 0 <= j < fs.len() ==> #[trigger] fs[j].name@ != name,
    decreases fs.len(),
{
    if fs.len() > 0 {
        lemma_first_file_named(fs.drop_first(), name);
        assert forall|j: int| 1 <= j < fs.len() implies #[trigger] fs[j] == fs.drop_first()[j - 1] by {}
        if first_file_named(fs, name) is None {
            assert forall|j: int| 0 <= j < fs.len() implies #[trigger] fs[j].name@ != name by {
                if j > 0 {
                    assert(fs[j] == fs.drop_first()[j - 1]);
                }
            }
        }
    }
}

/// An empty tree holds no file anywhere.
proof fn lemma_empty_holds_nothing(t: PackageTree, path: Seq<Seq<char>>, name: Seq<char>)
    requires
        t.children@.len() == 0,
        t.files@.len() == 0,
    ensures
        file_at(t, path, name) is None,
{
    assert(first_named_tree(t.children@, Seq::empty()) is None);
    if path.len() > 0 {
        assert(first_named_tree(t.children@, path[0]) is None);
    }
}

/// The names from the top of the tree made for a file down to the package holding
/// it: the file's packages, the first at the top; an unnamed package where it has none.
pub open spec fn chain_names(path: Seq<Seq<char>>) -> Seq<Seq<char>> {
    if path.len() == 0 {
        seq![Seq::<char>::empty()]
    } else {
        path
    }
}

/// `t` is a line of packages named `names`, the last holding `f` alone.
pub open spec fn is_chain(t: PackageTree, names: Seq<Seq<char>>, f: ProtoFile) -> bool
    decreases names.len(),
{
    &&& names.len() > 0
    &&& t.name@ == names[0]
    &&& if names.len() == 1 {
        t.children@.len() == 0 && t.files@ == seq![f]
    } else {
        &&& t.files@.len() == 0
        &&& t.children@.len() == 1
        &&& is_chain(t.children@[0], names.drop_first(), f)
    }
}

/// A line of packages holds its file at the end of the line, and nothing else.
proof fn lemma_chain_files(t: PackageTree, names: Seq<Seq<char>>, f: ProtoFile, path: Seq<Seq<char>>, n: Seq<char>)
    requires
        is_chain(t, names, f),
    ensures
        file_at(t, path, n) == (if path == names.drop_first() && n == f.name@ { Some(f) } else { None::<ProtoFile> }),
        tree_wf(t),
    decreases names.len(),
{
    lemma_file_at_parts(t, path, n);
    if names.len() == 1 {
        assert(t.files@[0] == f);
        lemma_first_file_named(t.files@, n);
        if path.len() > 0 {
            assert(first_named_tree(t.children@, path[0]) is None);
        } else {
            assert(path =~= names.drop_first());
        }
    } else {
        let c = t.children@[0];
        reveal_with_fuel(is_chain, 2);
        assert(c.name@ == names.drop_first()[0]);
        assert(first_file_named(t.files@, n) is None);
        if path.len() > 0 {
            assert(t.children@.drop_first().len() == 0);
            assert(first_named_tree(t.children@.drop_first(), path[0]) is None);
            lemma_chain_files(c, names.drop_first(), f, path.drop_first(), n);
            if path[0] == names.drop_first()[0] {
                assert(first_named_tree(t.children@, path[0]) == Some(0int));
            } else {
                assert(first_named_tree(t.children@, path[0]) is None);
                assert(path != names.drop_first());
            }
            if path.drop_first() == names.drop_first().drop_first() && path[0] == names.drop_first()[0] {
                assert forall|j: int| 0 <= j < path.len() implies path[j] == names.drop_first()[j] by {
                    if j > 0 {
                        assert(path[j] == path.drop_first()[j - 1]);
                        assert(names.drop_first()[j] == names.drop_first().drop_first()[j - 1]);
                    }
                }
                assert(path =~= names.drop_first());
            }
            if path == names.drop_first() {
                assert(path.drop_first() == names.drop_first().drop_first());
            }
        } else {
            assert(names.drop_first().len() > 0);
        }
        lemma_chain_files(c, names.drop_first(), f, Seq::empty(), n);
    }
}

/// The tree with neither children nor files, and an empty name.
pub open spec fn empty_tree_v(t: PackageTree) -> bool {
    t.children@.len() == 0 && t.files@.len() == 0 && t.name@ == Seq::<char>::empty()
}

impl PackageTree {
    /// A tree with no children, no files and an empty name.
    pub fn new() -> (r: PackageTree)
        ensures
            empty_tree_v(r),
    {
        PackageTree { children: Vec::new(), files: Vec::new(), name: String::new() }
    }

    /// A tree named `name` with no children and no files.
    fn named(name: &str) -> (r: PackageTree)
        ensures
            r.children@.len() == 0,
            r.files@.len() == 0,
            r.name@ == name@,
    {
        PackageTree { children: Vec::new(), files: Vec::new(), name: name.to_string() }
    }

    /// The index of the child named `name`, added empty at the end where there is
    /// none.
    pub fn create_child(&mut self, name: &str) -> (r: usize)
        ensures
            final(self).name == old(self).name,
            final(self).files == old(self).files,
            r < final(self).children@.len(),
            final(self).children@[r as int].name@ == name@,
            match first_named_tree(old(self).children@, name@) {
                Some(i) => r == i && final(self).children@ == old(self).children@,
                None => r == old(self).children@.len()
                    && final(self).children@.len() == old(self).children@.len() + 1
                    && final(self).children@.subrange(0, r as int) == old(self).children@
                    && final(self).children@[r as int].children@.len() == 0
                    && final(self).children@[r as int].files@.len() == 0,
            },
            forall|path: Seq<Seq<char>>, n: Seq<char>| #[trigger] file_at(*final(self), path, n) == file_at(*old(self), path, n),
            first_named_tree(final(self).children@, name@) == Some(r as int),
    {
        proof {
            lemma_first_named_tree(self.children@, name@);
        }
        match self.find_child(name) {
            Some(i) => i,
            None => {
                let child = PackageTree::named(name);
                let ghost c = child;
                self.children.push(child);
                assert(self.children@.subrange(0, self.children.len() - 1) =~= old(self).children@);
                proof {
                    lemma_first_named_tree_push(old(self).children@, c, name@);
                    assert forall|path: Seq<Seq<char>>, n: Seq<char>|
                        #[trigger] file_at(*self, path, n) == file_at(*old(self), path, n) by {
                        lemma_file_at_parts(*self, path, n);
                        lemma_file_at_parts(*old(self), path, n);
                        assert(self.children@ == old(self).children@.push(c));
                        assert(self.files@ == old(self).files@);
                        if path.len() > 0 {
                            lemma_first_named_tree_push(old(self).children@, c, path[0]);
                            lemma_empty_holds_nothing(c, path.drop_first(), n);
                            match first_named_tree(old(self).children@, path[0]) {
                                Some(i) => {
                                    lemma_first_named_tree(old(self).children@, path[0]);
                                    assert(self.children@[i] == old(self).children@[i]);
                                },
                                None => {
                                    assert(self.children@[old(self).children@.len() as int] == c);
                                },
                            }
                        }
                    }
                }
                self.children.len() - 1
            },
        }
    }

    /// The index of the first child named `name`.
    pub fn find_child(&self, name: &str) -> (r: Option<usize>)
        ensures
            r matches Some(i) ==> first_named_tree(self.children@, name@) == Some(i as int),
            r is None ==> first_named_tree(self.children@, name@) is None,
    {
        assert(self.children@.skip(0) =~= self.children@);
        let mut i: usize = 0;
        while i < self.children.len()
            invariant
                i <= self.children@.len(),
                first_named_tree(self.children@, name@) == (match first_named_tree(self.children@.skip(i as int), name@) {
                    Some(k) => Some(k + i),
                    None => None,
                }),
            decreases self.children@.len() - i,
        {
            assert(self.children@.skip(i as int)[0] == self.children@[i as int]);
            assert(self.children@.skip(i as int).drop_first() =~= self.children@.skip(i + 1));
            if str_eq(self.children[i].name.as_str(), name) {
                return Some(i);
            }
            i = i + 1;
        }
        None
    }

    /// The sub-tree at the package path `path`, following the first child of each
    /// name.
    pub fn resolve_subtree(&self, path: &[String]) -> (r: Option<&PackageTree>)
        ensures
            r == (match subtree_at(*self, views(path@)) {
                Some(t) => Some(&t),
                None => None::<&PackageTree>,
            }),
        decreases path@.len(),
    {
        if path.len() == 0 {
            return Some(self);
        }
        let ghost ps = views(path@);
        let rest = crate::scope_builder::slice_rest(path);
        assert(views(rest@) =~= ps.drop_first());
        assert(ps[0] == path@[0]@);
        proof {
            lemma_first_named_tree(self.children@, ps[0]);
        }
        match self.find_child(path[0].as_str()) {
            Some(i) => self.children[i].resolve_subtree(rest),
            None => None,
        }
    }
}

impl PackageTree {
    /// The tree holding one file: a line of packages down to the file's package (see
    /// `chain_names`).
    pub fn from_file(f: ProtoFile) -> (r: PackageTree)
        ensures
            is_chain(r, chain_names(views(f.path@)), f),
    {
        let ghost file = f;
        let mut names: Vec<String> = Vec::new();
        if f.path.len() == 0 {
            names.push(String::new());
        }
        let mut i: usize = 0;
        while i < f.path.len()
            invariant
                i <= f.path@.len(),
                f == file,
                views(names@) == (if f.path@.len() == 0 { seq![Seq::<char>::empty()] } else { Seq::empty() })
                    + views(f.path@).take(i as int),
            decreases f.path@.len() - i,
        {
            let ghost before = names@;
            names.push(f.path[i].clone());
            assert(views(names@) =~= views(before).push(f.path@[i as int]@));
            assert(views(f.path@).take(i + 1) =~= views(f.path@).take(i as int).push(f.path@[i as int]@));
            i = i + 1;
        }
        assert(views(f.path@).take(i as int) =~= views(f.path@));
        let ghost all = views(names@);
        assert(all =~= chain_names(views(f.path@)));
        let n = names.len();
        let mut files: Vec<ProtoFile> = Vec::new();
        files.push(f);
        let mut node = PackageTree { children: Vec::new(), files, name: names[n - 1].clone() };
        assert(node.files@ =~= seq![file]);
        assert(all.skip(n - 1) =~= seq![all[n - 1]]);
        let mut k: usize = n - 1;
        while k > 0
            invariant
                k < n == names@.len(),
                all == views(names@),
                is_chain(node, all.skip(k as int), file),
            decreases k,
        {
            k = k - 1;
            let mut children: Vec<PackageTree> = Vec::new();
            children.push(node);
            node = PackageTree { children, files: Vec::new(), name: names[k].clone() };
            assert(all.skip(k as int).drop_first() =~= all.skip(k + 1));
            assert(all.skip(k as int)[0] == all[k as int]);
        }
        assert(all.skip(0) =~= all);
        node
    }
}

/// The file `a` has at a key, else the one `b` has there.
spec fn inner_merge(a: PackageTree, b: PackageTree, path: Seq<Seq<char>>, name: Seq<char>) -> Option<ProtoFile> {
    match file_at(a, path, name) {
        Some(f) => Some(f),
        None => file_at(b, path, name),
    }
}

/// Below the child of a given name, a tree holds what that child holds.
proof fn lemma_below_child(t: PackageTree, name: Seq<char>, idx: int, path: Seq<Seq<char>>, n: Seq<char>)
    requires
        first_named_tree(t.children@, name) == Some(idx),
    ensures
        file_at(t, seq![name] + path, n) == file_at(t.children@[idx], path, n),
{
    let p = seq![name] + path;
    assert(p[0] == name);
    assert(p.drop_first() =~= path);
    lemma_file_at_parts(t, p, n);
}

/// Replacing the child that a name reaches changes what the tree holds below that
/// name only.
proof fn lemma_lift_child(
    old: PackageTree,
    s1: PackageTree,
    s2: PackageTree,
    tree: PackageTree,
    idx: int,
    child0: PackageTree,
    childf: PackageTree,
)
    requires
        forall|p: Seq<Seq<char>>, n: Seq<char>| #[trigger] file_at(s1, p, n) == file_at(old, p, n),
        first_named_tree(s1.children@, tree.name@) == Some(idx),
        child0 == s1.children@[idx],
        childf.name@ == child0.name@,
        s2.children@ == s1.children@.update(idx, childf),
        s2.files@ == s1.files@,
        forall|q: Seq<Seq<char>>, n: Seq<char>| #[trigger] file_at(childf, q, n) == inner_merge(child0, tree, q, n),
    ensures
        forall|p: Seq<Seq<char>>, n: Seq<char>| #[trigger] file_at(s2, p, n) == merged_file(old, tree, p, n),
{
    lemma_first_named_tree(s1.children@, tree.name@);
    assert forall|p: Seq<Seq<char>>, n: Seq<char>| #[trigger] file_at(s2, p, n) == merged_file(old, tree, p, n) by {
        lemma_file_at_parts(s2, p, n);
        lemma_file_at_parts(s1, p, n);
        assert(file_at(s1, p, n) == file_at(old, p, n));
        if p.len() > 0 {
            lemma_first_named_tree_update(s1.children@, idx, childf, p[0]);
            if p[0] == tree.name@ {
                assert(file_at(childf, p.drop_first(), n) == inner_merge(child0, tree, p.drop_first(), n));
            } else {
                lemma_first_named_tree(s1.children@, p[0]);
            }
        }
    }
}

impl PackageTree {
    /// Puts `tree` below this tree as the child of its name (that child is made where
    /// there is none): its files join the child's files, then its children are put
    /// below the child in the same way. A file whose name is already there is
    /// refused.
    pub fn append_subtree(&mut self, tree: PackageTree) -> (r: Result<(), ProtoError>)
        ensures
            final(self).name == old(self).name,
            tree_wf(tree) ==> (r is Ok <==> !conflicts(*old(self), tree)),
            tree_wf(tree) && r is Ok ==> forall|path: Seq<Seq<char>>, n: Seq<char>|
                #[trigger] file_at(*final(self), path, n) == merged_file(*old(self), tree, path, n),
            tree_wf(tree) ==> (r matches Err(e) ==> conflict_error(*old(self), tree, e@)),
        decreases tree,
    {
        let ghost t0 = tree;
        let PackageTree { children: mut nested, files: mut new_files, name } = tree;
        let ghost orig_files = new_files@;
        let ghost orig_children = nested@;
        let files_count = new_files.len();
        let children_count = nested.len();
        assert(orig_files.len() == files_count && orig_children.len() == children_count);
        let idx = self.create_child(name.as_str());
        let ghost s1 = *self;
        let mut child = self.children.remove(idx);
        let ghost child0 = child;
        assert(child0 == s1.children@[idx as int]);
        proof {
            assert forall|q: Seq<Seq<char>>, n: Seq<char>|
                #[trigger] file_at(t0, q, n) == file_at_parts(orig_files, orig_children, q, n) by {
                lemma_file_at_parts(t0, q, n);
            }
            assert forall|q: Seq<Seq<char>>, n: Seq<char>|
                #[trigger] file_at(*old(self), seq![t0.name@] + q, n) == file_at(child0, q, n) by {
                lemma_below_child(s1, name@, idx as int, q, n);
                assert(file_at(s1, seq![t0.name@] + q, n) == file_at(*old(self), seq![t0.name@] + q, n));
            }
        }
        // The files of `tree` join the child's files.
        assert(orig_files.skip(0) =~= orig_files);
        assert(orig_files.take(0) =~= Seq::<ProtoFile>::empty());
        let mut k: usize = 0;
        while new_files.len() > 0
            invariant
                k <= orig_files.len() == files_count,
                nested@ == orig_children,
                new_files@ == orig_files.skip(k as int),
                self.name == s1.name,
                self.files == s1.files,
                s1.name == old(self).name,
                self.children@ == s1.children@.remove(idx as int),
                idx < s1.children@.len(),
                first_named_tree(s1.children@, name@) == Some(idx as int),
                name@ == t0.name@,
                t0 == tree,
                child0 == s1.children@[idx as int],
                forall|q: Seq<Seq<char>>, n: Seq<char>|
                    #[trigger] file_at(*old(self), seq![t0.name@] + q, n) == file_at(child0, q, n),
                child.name == child0.name,
                child.children == child0.children,
                child.files@ == child0.files@ + orig_files.take(k as int),
                tree_wf(t0) ==> forall|j: int, l: int| 0 <= j < l < orig_files.len() ==>
                    #[trigger] orig_files[j].name@ != #[trigger] orig_files[l].name@,
                orig_files == t0.files@,
                forall|q: Seq<Seq<char>>, n: Seq<char>| #[trigger] file_at(child, q, n) == match file_at(child0, q, n) {
                    Some(f) => Some(f),
                    None => file_at_parts(orig_files.take(k as int), Seq::empty(), q, n),
                },
                forall|q: Seq<Seq<char>>, n: Seq<char>|
                    !((#[trigger] file_at(child0, q, n)) is Some
                        && (#[trigger] file_at_parts(orig_files.take(k as int), Seq::empty(), q, n)) is Some),
            decreases new_files@.len(),
        {
            assert(orig_files.skip(k as int).len() == orig_files.len() - k);
            assert(k < orig_files.len());
            let file = new_files.remove(0);
            assert(orig_files.skip(k as int)[0] == file);
            assert(orig_files.skip(k as int).remove(0) =~= orig_files.skip(k + 1));
            assert(orig_files[k as int] == file);
            let ghost before = child;
            let ghost n0 = file.name@;
            proof {
                lemma_file_at_parts(before, Seq::empty(), n0);
                lemma_file_at_parts(child0, Seq::empty(), n0);
                lemma_first_file_named(before.files@, n0);
                lemma_first_file_named(orig_files.take(k as int), n0);
                lemma_first_file_named(orig_files, n0);
                if tree_wf(t0) {
                    assert forall|j: int| 0 <= j < orig_files.take(k as int).len()
                        implies #[trigger] orig_files.take(k as int)[j].name@ != n0 by {
                        assert(orig_files.take(k as int)[j] == orig_files[j]);
                    }
                }
            }
            match crate::block_scope::find_file(&child.files, file.name.as_str()) {
                Some(prev) => {
                    let e = ProtoError::ConflictingFiles { first_path: prev.full_path(), second_path: file.full_path() };
                    proof {
                        if tree_wf(t0) {
                            let q = Seq::<Seq<char>>::empty();
                            assert(file_at(before, q, n0) == Some(*prev));
                            assert(file_at_parts(orig_files.take(k as int), Seq::empty(), q, n0) is None);
                            assert(file_at(child0, q, n0) == Some(*prev));
                            assert(file_at(t0, q, n0) == Some(file));
                            assert(file_at(*old(self), seq![t0.name@] + q, n0) == Some(*prev));
                            assert(conflict_error(*old(self), t0, e@));
                        }
                    }
                    self.children.insert(idx, child);
                    return Err(e);
                },
                None => {
                    child.files.push(file);
                    proof {
                        assert(orig_files.take(k + 1) =~= orig_files.take(k as int).push(file));
                        assert(child.files@ =~= child0.files@ + orig_files.take(k + 1));
                        assert forall|q: Seq<Seq<char>>, n: Seq<char>| #[trigger] file_at(child, q, n) == match file_at(child0, q, n) {
                            Some(f) => Some(f),
                            None => file_at_parts(orig_files.take(k + 1), Seq::empty(), q, n),
                        } by {
                            lemma_file_at_parts(child, q, n);
                            lemma_file_at_parts(before, q, n);
                            lemma_file_at_parts(child0, q, n);
                            assert(file_at(before, q, n) == match file_at(child0, q, n) {
                                Some(f) => Some(f),
                                None => file_at_parts(orig_files.take(k as int), Seq::empty(), q, n),
                            });
                            if q.len() == 0 {
                                lemma_first_file_named_push(before.files@, file, n);
                                lemma_first_file_named_push(orig_files.take(k as int), file, n);
                                lemma_first_file_named(before.files@, n);
                                lemma_first_file_named(orig_files.take(k as int), n);
                                assert(child.files@ == before.files@.push(file));
                                match first_file_named(before.files@, n) {
                                    Some(i) => {
                                        assert(child.files@[i] == before.files@[i]);
                                    },
                                    None => {
                                        assert(child.files@[before.files@.len() as int] == file);
                                    },
                                }
                                match first_file_named(orig_files.take(k as int), n) {
                                    Some(i) => {
                                        assert(orig_files.take(k + 1)[i] == orig_files.take(k as int)[i]);
                                    },
                                    None => {
                                        assert(orig_files.take(k + 1)[k as int] == file);
                                    },
                                }
                            }
                        }
                        assert forall|q: Seq<Seq<char>>, n: Seq<char>|
                            !((#[trigger] file_at(child0, q, n)) is Some
                                && (#[trigger] file_at_parts(orig_files.take(k + 1), Seq::empty(), q, n)) is Some) by {
                            assert(!(file_at(child0, q, n) is Some
                                && file_at_parts(orig_files.take(k as int), Seq::empty(), q, n) is Some));
                            lemma_file_at_parts(before, q, n);
                            if q.len() == 0 {
                                lemma_first_file_named_push(orig_files.take(k as int), file, n);
                                assert(file_at(before, q, n) == match file_at(child0, q, n) {
                                    Some(f) => Some(f),
                                    None => file_at_parts(orig_files.take(k as int), Seq::empty(), q, n),
                                });
                            }
                        }
                    }
                },
            }
            k = k + 1;
        }
        assert(orig_files.take(k as int) =~= orig_files) by {
            assert(orig_files.skip(k as int).len() == 0);
        }
        // The children of `tree` go below the child in turn.
        let ghost child1 = child;
        assert(orig_children.skip(0) =~= orig_children);
        assert(orig_children.take(0) =~= Seq::<PackageTree>::empty());
        proof {
            assert forall|q: Seq<Seq<char>>, n: Seq<char>| #[trigger] file_at(child, q, n) == match file_at(child0, q, n) {
                Some(f) => Some(f),
                None => file_at_parts(orig_files, orig_children.take(0), q, n),
            } by {
                assert(file_at_parts(orig_files, orig_children.take(0), q, n)
                    == file_at_parts(orig_files.take(k as int), Seq::empty(), q, n));
            }
            assert forall|q: Seq<Seq<char>>, n: Seq<char>|
                !((#[trigger] file_at(child0, q, n)) is Some
                    && (#[trigger] file_at_parts(orig_files, orig_children.take(0), q, n)) is Some) by {
                assert(file_at_parts(orig_files, orig_children.take(0), q, n)
                    == file_at_parts(orig_files.take(k as int), Seq::empty(), q, n));
            }
        }
        let mut m: usize = 0;
        while nested.len() > 0
            invariant
                m <= orig_children.len() == children_count,
                nested@ == orig_children.skip(m as int),
                self.name == s1.name,
                self.files == s1.files,
                s1.name == old(self).name,
                self.children@ == s1.children@.remove(idx as int),
                idx < s1.children@.len(),
                first_named_tree(s1.children@, name@) == Some(idx as int),
                name@ == t0.name@,
                t0 == tree,
                child0 == s1.children@[idx as int],
                child.name@ == child0.name@,
                orig_children == t0.children@,
                orig_files == t0.files@,
                tree_wf(t0) ==> forall|q: Seq<Seq<char>>, n: Seq<char>| #[trigger] file_at(child, q, n) == match file_at(child0, q, n) {
                    Some(f) => Some(f),
                    None => file_at_parts(orig_files, orig_children.take(m as int), q, n),
                },
                tree_wf(t0) ==> forall|q: Seq<Seq<char>>, n: Seq<char>|
                    !((#[trigger] file_at(child0, q, n)) is Some
                        && (#[trigger] file_at_parts(orig_files, orig_children.take(m as int), q, n)) is Some),
                forall|q: Seq<Seq<char>>, n: Seq<char>|
                    #[trigger] file_at(*old(self), seq![t0.name@] + q, n) == file_at(child0, q, n),
                forall|q: Seq<Seq<char>>, n: Seq<char>|
                    #[trigger] file_at(t0, q, n) == file_at_parts(orig_files, orig_children, q, n),
            decreases nested@.len(),
        {
            let c = nested.remove(0);
            assert(orig_children.skip(m as int)[0] == c);
            assert(orig_children.skip(m as int).remove(0) =~= orig_children.skip(m + 1));
            assert(orig_children[m as int] == c);
            assert(t0 == tree);
            assert(decreases_to!(t0 => t0.children));
            assert(decreases_to!(t0.children => t0.children@));
            assert(decreases_to!(t0.children@ => t0.children@[m as int]));
            assert(decreases_to!(t0 => c));
            let ghost cb = child;
            let ghost qm = orig_children.take(m as int);
            let ghost qm1 = orig_children.take(m + 1);
            assert(qm1 =~= qm.push(c));
            proof {
                if tree_wf(t0) {
                    assert(tree_wf(c));
                    assert forall|j: int| 0 <= j < qm.len() implies #[trigger] qm[j].name@ != c.name@ by {
                        assert(qm[j] == orig_children[j]);
                    }
                    lemma_first_named_tree_none(qm, c.name@);
                    lemma_first_named_tree_push(qm, c, c.name@);
                    lemma_first_named_tree_none(orig_children.take(m as int), c.name@);
                    lemma_first_named_tree(orig_children, c.name@);
                }
            }
            match child.append_subtree(c) {
                Err(e) => {
                    proof {
                        if tree_wf(t0) {
                            let (p, n) = choose|p: Seq<Seq<char>>, n: Seq<char>|
                                (#[trigger] file_at(cb, seq![c.name@] + p, n)) matches Some(a)
                                && (#[trigger] file_at(c, p, n)) matches Some(b)
                                && e@ == (ProtoErrorV::ConflictingFiles { first_path: full_path_text(a), second_path: full_path_text(b) });
                            let q = seq![c.name@] + p;
                            assert(q[0] == c.name@);
                            assert(q.drop_first() =~= p);
                            assert(file_at_parts(orig_files, qm, q, n) is None);
                            assert(file_at(child0, q, n) == file_at(cb, q, n));
                            assert(file_at(t0, q, n) == file_at(c, p, n));
                            assert(file_at(*old(self), seq![t0.name@] + q, n) == file_at(child0, q, n));
                            assert(conflict_error(*old(self), t0, e@));
                        }
                    }
                    self.children.insert(idx, child);
                    return Err(e);
                },
                Ok(()) => {
                    proof {
                        if tree_wf(t0) {
                            assert forall|q: Seq<Seq<char>>, n: Seq<char>| #[trigger] file_at(child, q, n) == match file_at(child0, q, n) {
                                Some(f) => Some(f),
                                None => file_at_parts(orig_files, qm1, q, n),
                            } by {
                                assert(file_at(child, q, n) == merged_file(cb, c, q, n));
                                assert(file_at(cb, q, n) == match file_at(child0, q, n) {
                                    Some(f) => Some(f),
                                    None => file_at_parts(orig_files, qm, q, n),
                                });
                                if q.len() > 0 {
                                    lemma_first_named_tree_push(qm, c, q[0]);
                                    lemma_first_named_tree(qm, q[0]);
                                    match first_named_tree(qm, q[0]) {
                                        Some(i) => {
                                            assert(qm1[i] == qm[i]);
                                            assert(qm[i] == orig_children[i]);
                                        },
                                        None => {
                                            assert(qm1[qm.len() as int] == c);
                                        },
                                    }
                                }
                            }
                            assert forall|q: Seq<Seq<char>>, n: Seq<char>|
                                !((#[trigger] file_at(child0, q, n)) is Some
                                    && (#[trigger] file_at_parts(orig_files, qm1, q, n)) is Some) by {
                                assert(!(file_at(child0, q, n) is Some && file_at_parts(orig_files, qm, q, n) is Some));
                                if q.len() > 0 && file_at(child0, q, n) is Some {
                                    lemma_first_named_tree_push(qm, c, q[0]);
                                    lemma_first_named_tree(qm, q[0]);
                                    match first_named_tree(qm, q[0]) {
                                        Some(i) => {
                                            assert(qm1[i] == qm[i]);
                                        },
                                        None => {
                                            assert(qm1[qm.len() as int] == c);
                                            if q[0] == c.name@ {
                                                let p = q.drop_first();
                                                assert(seq![c.name@] + p =~= q);
                                                assert(file_at(cb, q, n) is Some);
                                                assert(!(file_at(cb, seq![c.name@] + p, n) is Some && file_at(c, p, n) is Some));
                                            }
                                        },
                                    }
                                }
                            }
                        }
                    }
                },
            }
            m = m + 1;
        }
        assert(orig_children.take(m as int) =~= orig_children) by {
            assert(orig_children.skip(m as int).len() == 0);
        }
        let ghost childf = child;
        self.children.insert(idx, child);
        proof {
            assert(self.children@ =~= s1.children@.update(idx as int, childf));
            if tree_wf(t0) {
                assert forall|q: Seq<Seq<char>>, n: Seq<char>| #[trigger] file_at(childf, q, n) == inner_merge(child0, t0, q, n) by {
                    assert(file_at(t0, q, n) == file_at_parts(orig_files, orig_children, q, n));
                }
                lemma_lift_child(*old(self), s1, *self, t0, idx as int, child0, childf);
                if conflicts(*old(self), t0) {
                    let (p, n) = choose|p: Seq<Seq<char>>, n: Seq<char>|
                        (#[trigger] file_at(*old(self), seq![t0.name@] + p, n)) is Some && (#[trigger] file_at(t0, p, n)) is Some;
                    assert(file_at(child0, p, n) is Some);
                    assert(file_at_parts(orig_files, orig_children, p, n) is Some);
                }
            }
        }
        Ok(())
    }
}

/// Where the tree built from a list of files puts a file: below the unnamed root,
/// along `chain_names` of its packages.
pub open spec fn file_key(f: ProtoFile) -> Seq<Seq<char>> {
    chain_names(views(f.path@))
}

/// Two files that the tree would put at the same place under the same name.
pub open spec fn same_place(a: ProtoFile, b: ProtoFile) -> bool {
    file_key(a) == file_key(b) && a.name@ == b.name@
}

/// No two of the first `j` files share a place.
pub open spec fn no_duplicate_before(fs: Seq<ProtoFile>, j: int) -> bool {
    forall|a: int, b: int| 0 <= a < b < j ==> !same_place(#[trigger] fs[a], #[trigger] fs[b])
}

/// The last of `fs` placed at `path` under `name`.
pub open spec fn placed(fs: Seq<ProtoFile>, path: Seq<Seq<char>>, name: Seq<char>) -> Option<ProtoFile>
    decreases fs.len(),
{
    if fs.len() == 0 {
        None
    } else if file_key(fs.last()) == path && fs.last().name@ == name {
        Some(fs.last())
    } else {
        placed(fs.drop_last(), path, name)
    }
}

proof fn lemma_placed_some(fs: Seq<ProtoFile>, path: Seq<Seq<char>>, name: Seq<char>)
    ensures
        placed(fs, path, name) matches Some(f) ==> exists|a: int| 0 <= a < fs.len() && #[trigger] fs[a] == f
            && file_key(f) == path && f.name@ == name,
        placed(fs, path, name) is None ==> forall|a: int| 0 <= a < fs.len() ==>
            !(file_key(#[trigger] fs[a]) == path && fs[a].name@ == name),
    decreases fs.len(),
{
    if fs.len() > 0 {
        lemma_placed_some(fs.drop_last(), path, name);
        if placed(fs, path, name) is Some && !(file_key(fs.last()) == path && fs.last().name@ == name) {
            let a = choose|a: int| 0 <= a < fs.drop_last().len() && #[trigger] fs.drop_last()[a] == placed(fs, path, name)->0
                && file_key(placed(fs, path, name)->0) == path && placed(fs, path, name)->0.name@ == name;
            assert(fs[a] == fs.drop_last()[a]);
        }
        if placed(fs, path, name) is None {
            assert forall|a: int| 0 <= a < fs.len() implies !(file_key(#[trigger] fs[a]) == path && fs[a].name@ == name) by {
                if a < fs.len() - 1 {
                    assert(fs[a] == fs.drop_last()[a]);
                }
            }
        }
    }
}

/// Where no two files share a place, each file is the one placed at its place.
pub proof fn lemma_placed_each(fs: Seq<ProtoFile>, i: int)
    requires
        0 <= i < fs.len(),
        no_duplicate_before(fs, fs.len() as int),
    ensures
        placed(fs, file_key(fs[i]), fs[i].name@) == Some(fs[i]),
    decreases fs.len(),
{
    if i < fs.len() - 1 {
        assert(!same_place(fs[i], fs[fs.len() - 1]));
        assert(fs.drop_last()[i] == fs[i]);
        assert(no_duplicate_before(fs.drop_last(), fs.drop_last().len() as int)) by {
            assert forall|a: int, b: int| 0 <= a < b < fs.drop_last().len()
                implies !same_place(#[trigger] fs.drop_last()[a], #[trigger] fs.drop_last()[b]) by {
                assert(fs.drop_last()[a] == fs[a] && fs.drop_last()[b] == fs[b]);
            }
        }
        lemma_placed_each(fs.drop_last(), i);
    }
}

impl PackageTree {
    /// The tree of a list of files: each file's tree (see `from_file`) appended in
    /// turn below an unnamed root; two files at the same place are refused.
    pub fn try_from_files(files: Vec<ProtoFile>) -> (r: Result<PackageTree, ProtoError>)
        ensures
            r is Ok <==> no_duplicate_before(files@, files@.len() as int),
            r matches Ok(t) ==> forall|path: Seq<Seq<char>>, n: Seq<char>|
                #[trigger] file_at(t, path, n) == placed(files@, path, n),
            r matches Err(e) ==> exists|a: int, b: int| 0 <= a < b < files@.len()
                && same_place(#[trigger] files@[a], #[trigger] files@[b]) && no_duplicate_before(files@, b)
                && e@ == (ProtoErrorV::ConflictingFiles {
                    first_path: full_path_text(files@[a]),
                    second_path: full_path_text(files@[b]),
                }),
    {
        let ghost fs = files@;
        let mut rest = files;
        let mut res = PackageTree::new();
        let count = rest.len();
        assert(fs.skip(0) =~= fs);
        proof {
            assert forall|path: Seq<Seq<char>>, n: Seq<char>| #[trigger] file_at(res, path, n) == placed(fs.take(0), path, n) by {
                lemma_empty_holds_nothing(res, path, n);
            }
        }
        let mut i: usize = 0;
        while rest.len() > 0
            invariant
                i <= fs.len() == count,
                fs == files@,
                rest@ == fs.skip(i as int),
                no_duplicate_before(fs, i as int),
                forall|path: Seq<Seq<char>>, n: Seq<char>| #[trigger] file_at(res, path, n) == placed(fs.take(i as int), path, n),
            decreases rest@.len(),
        {
            assert(fs.skip(i as int).len() == fs.len() - i);
            let f = rest.remove(0);
            assert(fs.skip(i as int)[0] == f);
            assert(fs.skip(i as int).remove(0) =~= fs.skip(i + 1));
            assert(fs[i as int] == f);
            let ghost names = file_key(f);
            let tree = PackageTree::from_file(f);
            let ghost before = res;
            let ghost tr = tree;
            proof {
                lemma_chain_files(tr, names, f, names.drop_first(), f.name@);
                assert(names[0] == tr.name@);
                assert(seq![tr.name@] + names.drop_first() =~= names);
                assert(fs.take(i + 1) =~= fs.take(i as int).push(f));
                assert(fs.take(i + 1).drop_last() =~= fs.take(i as int));
                lemma_placed_some(fs.take(i as int), names, f.name@);
            }
            match res.append_subtree(tree) {
                Ok(()) => {
                    proof {
                        assert(!conflicts(before, tr));
                        if file_at(before, names, f.name@) is Some {
                            assert(file_at(before, seq![tr.name@] + names.drop_first(), f.name@) is Some);
                            assert(file_at(tr, names.drop_first(), f.name@) is Some);
                        }
                        assert(placed(fs.take(i as int), names, f.name@) is None);
                        assert forall|a: int, b: int| 0 <= a < b < i + 1 implies !same_place(#[trigger] fs[a], #[trigger] fs[b]) by {
                            if b == i {
                                assert(fs.take(i as int)[a] == fs[a]);
                            }
                        }
                        assert forall|path: Seq<Seq<char>>, n: Seq<char>|
                            #[trigger] file_at(res, path, n) == placed(fs.take(i + 1), path, n) by {
                            assert(file_at(res, path, n) == merged_file(before, tr, path, n));
                            assert(file_at(before, path, n) == placed(fs.take(i as int), path, n));
                            lemma_chain_files(tr, names, f, path.drop_first(), n);
                            lemma_placed_some(fs.take(i as int), path, n);
                            if path.len() > 0 && path[0] == tr.name@ && path.drop_first() == names.drop_first() {
                                assert(path =~= names);
                            }
                            if path == names {
                                assert(path.drop_first() == names.drop_first());
                            }
                        }
                    }
                },
                Err(e) => {
                    proof {
                        let (q, n) = choose|q: Seq<Seq<char>>, n: Seq<char>|
                            (#[trigger] file_at(before, seq![tr.name@] + q, n)) matches Some(a)
                            && (#[trigger] file_at(tr, q, n)) matches Some(b)
                            && e@ == (ProtoErrorV::ConflictingFiles { first_path: full_path_text(a), second_path: full_path_text(b) });
                        lemma_chain_files(tr, names, f, q, n);
                        assert(q == names.drop_first() && n == f.name@);
                        let placed_file = file_at(before, seq![tr.name@] + q, n)->0;
                        assert(placed(fs.take(i as int), names, f.name@) == Some(placed_file));
                        let a = choose|a: int| 0 <= a < fs.take(i as int).len() && #[trigger] fs.take(i as int)[a] == placed_file
                            && file_key(placed_file) == names && placed_file.name@ == f.name@;
                        assert(fs[a] == fs.take(i as int)[a]);
                        assert(same_place(fs[a], fs[i as int]));
                        assert(!no_duplicate_before(fs, fs.len() as int));
                        assert(e@ == (ProtoErrorV::ConflictingFiles {
                            first_path: full_path_text(fs[a]),
                            second_path: full_path_text(fs[i as int]),
                        }));
                        assert(0 <= a < i && same_place(fs[a], fs[i as int]) && no_duplicate_before(fs, i as int));
                    }
                    return Err(e);
                },
            }
            i = i + 1;
        }
        assert(fs.take(i as int) =~= fs) by {
            assert(fs.skip(i as int).len() == 0);
        }
        Ok(res)
    }
}

/// Two spaces per level.
pub open spec fn indent_text(level: nat) -> Seq<char>
    decreases level,
{
    if level == 0 {
        Seq::empty()
    } else {
        indent_text((level - 1) as nat) + "  "@
    }
}

/// A tree as text: its name on a line indented by `level`, then its children one
/// level deeper, then its files' names one level deeper.
pub open spec fn tree_text(t: PackageTree, level: nat) -> Seq<char>
    decreases t, 0nat,
{
    indent_text(level) + t.name@ + "\n"@ + children_text(t.children@, (level + 1) as nat, t.children@.len() as nat)
        + files_text(t.files@, (level + 1) as nat)
}

/// The text of the first `k` of `cs`, each at `level`.
pub open spec fn children_text(cs: Seq<PackageTree>, level: nat, k: nat) -> Seq<char>
    decreases cs, k,
{
    if k == 0 || k > cs.len() {
        Seq::empty()
    } else {
        children_text(cs, level, (k - 1) as nat) + tree_text(cs[k - 1], level)
    }
}

/// The names of `fs`, each on a line indented by `level`.
pub open spec fn files_text(fs: Seq<ProtoFile>, level: nat) -> Seq<char>
    decreases fs.len(),
{
    if fs.len() == 0 {
        Seq::empty()
    } else {
        files_text(fs.drop_last(), level) + indent_text(level) + fs.last().name@ + "\n"@
    }
}

impl PackageTree {
    /// The tree as text: each package's name on a line, indented by two spaces per
    /// level, its sub-packages below it, then its files' names.
    pub fn to_text(&self) -> (r: String)
        ensures
            r@ == tree_text(*self, 0),
    {
        let mut out = String::new();
        let indent = String::new();
        assert(indent@ =~= indent_text(0));
        self.write_level(&mut out, &indent, Ghost(0));
        assert(out@ =~= tree_text(*self, 0));
        out
    }

    fn write_level(&self, out: &mut String, indent: &String, Ghost(level): Ghost<nat>)
        requires
            indent@ == indent_text(level),
        ensures
            final(out)@ == old(out)@ + tree_text(*self, level),
        decreases self,
    {
        let ghost start = out@;
        out.append(indent.as_str());
        out.append(self.name.as_str());
        out.append("\n");
        let ghost head = out@;
        let mut deeper = indent.clone();
        deeper.append("  ");
        assert(deeper@ == indent_text(level + 1));
        let mut i: usize = 0;
        while i < self.children.len()
            invariant
                i <= self.children@.len(),
                deeper@ == indent_text(level + 1),
                out@ == head + children_text(self.children@, (level + 1) as nat, i as nat),
            decreases self.children@.len() - i,
        {
            assert(decreases_to!(self => self.children@[i as int]));
            self.children[i].write_level(out, &deeper, Ghost((level + 1) as nat));
            assert(out@ =~= head + children_text(self.children@, (level + 1) as nat, (i + 1) as nat));
            i = i + 1;
        }
        let ghost middle = out@;
        let mut j: usize = 0;
        while j < self.files.len()
            invariant
                j <= self.files@.len(),
                deeper@ == indent_text(level + 1),
                out@ == middle + files_text(self.files@.take(j as int), (level + 1) as nat),
            decreases self.files@.len() - j,
        {
            out.append(deeper.as_str());
            out.append(self.files[j].name.as_str());
            out.append("\n");
            assert(self.files@.take(j + 1).drop_last() =~= self.files@.take(j as int));
            assert(out@ =~= middle + files_text(self.files@.take(j + 1), (level + 1) as nat));
            j = j + 1;
        }
        assert(self.files@.take(j as int) =~= self.files@);
        assert(out@ =~= start + tree_text(*self, level));
    }
}

} // verus!
