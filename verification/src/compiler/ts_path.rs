//! Paths of declarations in the generated TypeScript tree.
use vstd::prelude::*;
use crate::protopath::{PathComponent, PathComponentV, ProtoPath};
use crate::text::{chars_of, string_from};

verus! {

/// The folder that holds the modules generated from a file: its name without `.proto`.
pub open spec fn folder_name_of(file_name: Seq<char>) -> Seq<char> {
    if file_name.len() >= 6 && file_name.subrange(file_name.len() - 6, file_name.len() as int) == ".proto"@ {
        file_name.subrange(0, file_name.len() - 6)
    } else {
        file_name
    }
}

/// The file name without its `.proto` suffix.
pub fn file_name_to_folder_name(file_name: &String) -> (r: String)
    ensures
        r@ == folder_name_of(file_name@),
{
    let cs = chars_of(file_name.as_str());
    let n = cs.len();
    proof {
        reveal_strlit(".proto");
    }
    if n >= 6 && cs[n - 6] == '.' && cs[n - 5] == 'p' && cs[n - 4] == 'r' && cs[n - 3] == 'o'
        && cs[n - 2] == 't' && cs[n - 1] == 'o' {
        assert(cs@.subrange(n - 6, n as int) =~= ".proto"@);
        string_from(&cs, 0, n - 6)
    } else {
        proof {
            if n >= 6 && cs@.subrange(n - 6, n as int) == ".proto"@ {
                assert(cs@.subrange(n - 6, n as int)[0] == '.');
                assert(cs@.subrange(n - 6, n as int)[1] == 'p');
                assert(cs@.subrange(n - 6, n as int)[2] == 'r');
                assert(cs@.subrange(n - 6, n as int)[3] == 'o');
                assert(cs@.subrange(n - 6, n as int)[4] == 't');
                assert(cs@.subrange(n - 6, n as int)[5] == 'o');
            }
        }
        file_name.clone()
    }
}

/// One step of a TypeScript path.
#[derive(Debug)]
pub enum TsPathComponent {
    Folder(String),
    File(String),
    Enum(String),
    Interface(String),
    Function(String),
}

/// Model of a TypeScript path step.
pub enum TsPathComponentV {
    Folder(Seq<char>),
    File(Seq<char>),
    Enum(Seq<char>),
    Interface(Seq<char>),
    Function(Seq<char>),
}

impl View for TsPathComponent {
    type V = TsPathComponentV;

    open spec fn view(&self) -> TsPathComponentV {
        match self {
            TsPathComponent::Folder(s) => TsPathComponentV::Folder(s@),
            TsPathComponent::File(s) => TsPathComponentV::File(s@),
            TsPathComponent::Enum(s) => TsPathComponentV::Enum(s@),
            TsPathComponent::Interface(s) => TsPathComponentV::Interface(s@),
            TsPathComponent::Function(s) => TsPathComponentV::Function(s@),
        }
    }
}

/// The name a TypeScript path step holds.
pub open spec fn ts_component_name(c: TsPathComponentV) -> Seq<char> {
    match c {
        TsPathComponentV::Folder(s) => s,
        TsPathComponentV::File(s) => s,
        TsPathComponentV::Enum(s) => s,
        TsPathComponentV::Interface(s) => s,
        TsPathComponentV::Function(s) => s,
    }
}

impl TsPathComponent {
    /// Whether the step names a declaration (an enum, an interface or a function).
    pub fn is_declaration(&self) -> (r: bool)
        ensures
            r == (self@ is Enum || self@ is Interface || self@ is Function),
    {
        match self {
            TsPathComponent::Folder(_) => false,
            TsPathComponent::File(_) => false,
            TsPathComponent::Enum(_) => true,
            TsPathComponent::Interface(_) => true,
            TsPathComponent::Function(_) => true,
        }
    }

    /// Whether the step is a file.
    pub fn is_file(&self) -> (r: bool)
        ensures
            r == (self@ is File),
    {
        matches!(self, TsPathComponent::File(_))
    }

    /// Whether the step is a folder.
    pub fn is_folder(&self) -> (r: bool)
        ensures
            r == (self@ is Folder),
    {
        matches!(self, TsPathComponent::Folder(_))
    }

    /// The name the step holds.
    pub fn name(&self) -> (r: String)
        ensures
            r@ == ts_component_name(self@),
    {
        match self {
            TsPathComponent::Folder(s) => s.clone(),
            TsPathComponent::File(s) => s.clone(),
            TsPathComponent::Enum(s) => s.clone(),
            TsPathComponent::Interface(s) => s.clone(),
            TsPathComponent::Function(s) => s.clone(),
        }
    }
}

/// The models of a list of TypeScript path steps.
pub open spec fn ts_components_view(s: Seq<TsPathComponent>) -> Seq<TsPathComponentV> {
    s.map_values(|c: TsPathComponent| c@)
}

/// A path in the generated TypeScript tree.
#[derive(Debug)]
pub struct TsPath {
    path: Vec<TsPathComponent>,
}

impl View for TsPath {
    type V = Seq<TsPathComponentV>;

    closed spec fn view(&self) -> Seq<TsPathComponentV> {
        ts_components_view(self.path@)
    }
}

/// Where a declaration of the scope tree lands in the TypeScript tree: packages,
/// files (without `.proto`) and messages become folders, an enum becomes a file.
pub open spec fn ts_component_of(c: PathComponentV) -> TsPathComponentV {
    match c {
        PathComponentV::Package(s) => TsPathComponentV::Folder(s),
        PathComponentV::File(s) => TsPathComponentV::Folder(folder_name_of(s)),
        PathComponentV::Message(s) => TsPathComponentV::Folder(s),
        PathComponentV::Enum(s) => TsPathComponentV::File(s),
    }
}

impl TsPath {
    /// The empty path.
    pub fn new() -> (r: TsPath)
        ensures
            r@ == Seq::<TsPathComponentV>::empty(),
    {
        let r = TsPath { path: Vec::new() };
        assert(r@ =~= Seq::<TsPathComponentV>::empty());
        r
    }

    /// Appends a step.
    pub fn push(&mut self, item: TsPathComponent)
        ensures
            final(self)@ == old(self)@.push(item@),
    {
        self.path.push(item);
        assert(final(self)@ =~= old(self)@.push(item@));
    }

    /// The steps of the path.
    pub fn components(&self) -> (r: &Vec<TsPathComponent>)
        ensures
            ts_components_view(r@) == self@,
    {
        &self.path
    }

    /// The TypeScript path of a declaration path.
    pub fn from_proto_path(proto_path: &ProtoPath) -> (r: TsPath)
        ensures
            r@ == proto_path@.map_values(|c: PathComponentV| ts_component_of(c)),
    {
        let mut res = TsPath::new();
        let mut i: usize = 0;
        while i < proto_path.path.len()
            invariant
                i <= proto_path.path.len(),
                res@ == proto_path@.take(i as int).map_values(|c: PathComponentV| ts_component_of(c)),
            decreases proto_path.path.len() - i,
        {
            let item = match &proto_path.path[i] {
                PathComponent::Package(s) => TsPathComponent::Folder(s.clone()),
                PathComponent::File(s) => TsPathComponent::Folder(file_name_to_folder_name(s)),
                PathComponent::Message(s) => TsPathComponent::Folder(s.clone()),
                PathComponent::Enum(s) => TsPathComponent::File(s.clone()),
            };
            assert(item@ == ts_component_of(proto_path@[i as int]));
            res.push(item);
            assert(proto_path@.take(i + 1).map_values(|c: PathComponentV| ts_component_of(c))
                =~= proto_path@.take(i as int).map_values(|c: PathComponentV| ts_component_of(c)).push(item@));
            i = i + 1;
        }
        assert(proto_path@.take(proto_path.path.len() as int) =~= proto_path@);
        res
    }
}

/// A step before the last as written in a path: `<folder>/` or `<file>::`.
pub open spec fn ts_step_text(c: TsPathComponentV) -> Seq<char> {
    match c {
        TsPathComponentV::Folder(n) => n + "/"@,
        TsPathComponentV::File(n) => n + "::"@,
        _ => Seq::empty(),
    }
}

/// The steps of `s`, each as `ts_step_text` writes it.
pub open spec fn ts_steps_text(s: Seq<TsPathComponentV>) -> Seq<char>
    decreases s.len(),
{
    if s.len() == 0 {
        Seq::empty()
    } else {
        ts_steps_text(s.drop_last()) + ts_step_text(s.last())
    }
}

/// The text of a TypeScript path: its folders and file as `ts_step_text` writes
/// them, then the last step's name.
pub open spec fn ts_path_text(p: Seq<TsPathComponentV>) -> Seq<char> {
    if p.len() == 0 {
        Seq::empty()
    } else {
        ts_steps_text(p.drop_last()) + ts_component_name(p.last())
    }
}

impl TsPath {
    /// The path as text (see `ts_path_text`); only folders and a file come before
    /// the last step.
    pub fn to_text(&self) -> (r: String)
        requires
            forall|i: int| 0 <= i < self@.len() - 1 ==>
                (#[trigger] self@[i] is Folder || self@[i] is File),
        ensures
            r@ == ts_path_text(self@),
    {
        let mut out = String::new();
        if self.path.len() == 0 {
            return out;
        }
        let ghost p = self@;
        let ghost steps = p.drop_last();
        let mut i: usize = 0;
        while i < self.path.len() - 1
            invariant
                i < self.path@.len(),
                p == self@,
                p == ts_components_view(self.path@),
                steps == p.drop_last(),
                out@ == ts_steps_text(steps.take(i as int)),
            decreases self.path@.len() - i,
        {
            assert(p[i as int] == self.path@[i as int]@);
            match &self.path[i] {
                TsPathComponent::Folder(n) => {
                    out.append(n.as_str());
                    out.append("/");
                },
                TsPathComponent::File(n) => {
                    out.append(n.as_str());
                    out.append("::");
                },
                _ => {},
            }
            assert(steps.take(i + 1).drop_last() =~= steps.take(i as int));
            assert(steps[i as int] == p[i as int]);
            assert(out@ =~= ts_steps_text(steps.take(i + 1)));
            i = i + 1;
        }
        assert(steps.take(i as int) =~= steps);
        let last = self.path[i].name();
        assert(p.last() == self.path@[i as int]@);
        out.append(last.as_str());
        out
    }
}

} // verus!
