//! Paths of declarations in the resolved scope tree.
use vstd::prelude::*;

verus! {

/// One step of a path: a package, a file, a message or an enum, by name.
#[derive(Debug)]
pub enum PathComponent {
    Package(String),
    File(String),
    Message(String),
    Enum(String),
}

/// Model of a path component.
pub enum PathComponentV {
    Package(Seq<char>),
    File(Seq<char>),
    Message(Seq<char>),
    Enum(Seq<char>),
}

impl View for PathComponent {
    type V = PathComponentV;

    open spec fn view(&self) -> PathComponentV {
        match self {
            PathComponent::Package(s) => PathComponentV::Package(s@),
            PathComponent::File(s) => PathComponentV::File(s@),
            PathComponent::Message(s) => PathComponentV::Message(s@),
            PathComponent::Enum(s) => PathComponentV::Enum(s@),
        }
    }
}

/// The name a path component holds.
pub open spec fn component_name(c: PathComponentV) -> Seq<char> {
    match c {
        PathComponentV::Package(s) => s,
        PathComponentV::File(s) => s,
        PathComponentV::Message(s) => s,
        PathComponentV::Enum(s) => s,
    }
}

impl PathComponent {
    /// The name the component holds.
    pub fn as_str(&self) -> (r: String)
        ensures
            r@ == component_name(self@),
    {
        match self {
            PathComponent::Package(s) => s.clone(),
            PathComponent::File(s) => s.clone(),
            PathComponent::Message(s) => s.clone(),
            PathComponent::Enum(s) => s.clone(),
        }
    }

    /// The component as text: the name it holds, as `as_str` gives it.
    pub fn to_text(&self) -> (r: String)
        ensures
            r@ == component_name(self@),
    {
        self.as_str()
    }

    /// A copy of the component.
    pub fn duplicate(&self) -> (r: PathComponent)
        ensures
            r@ == self@,
    {
        match self {
            PathComponent::Package(s) => PathComponent::Package(s.clone()),
            PathComponent::File(s) => PathComponent::File(s.clone()),
            PathComponent::Message(s) => PathComponent::Message(s.clone()),
            PathComponent::Enum(s) => PathComponent::Enum(s.clone()),
        }
    }
}

/// The models of a list of components.
pub open spec fn components_view(s: Seq<PathComponent>) -> Seq<PathComponentV> {
    s.map_values(|c: PathComponent| c@)
}

/// A path from the root of the scope tree.
#[derive(Debug)]
pub struct ProtoPath {
    pub path: Vec<PathComponent>,
}

impl View for ProtoPath {
    type V = Seq<PathComponentV>;

    open spec fn view(&self) -> Seq<PathComponentV> {
        components_view(self.path@)
    }
}

impl ProtoPath {
    /// The number of components.
    pub fn len(&self) -> (r: usize)
        ensures
            r == self@.len(),
    {
        self.path.len()
    }

    /// The empty path.
    pub fn new() -> (r: ProtoPath)
        ensures
            r@ == Seq::<PathComponentV>::empty(),
    {
        let r = ProtoPath { path: Vec::new() };
        assert(r@ =~= Seq::<PathComponentV>::empty());
        r
    }

    /// Appends a component.
    pub fn push(&mut self, item: PathComponent)
        ensures
            final(self)@ == old(self)@.push(item@),
    {
        self.path.push(item);
        assert(final(self)@ =~= old(self)@.push(item@));
    }

    /// Whether the path has no component.
    pub fn is_empty(&self) -> (r: bool)
        ensures
            r == (self@.len() == 0),
    {
        self.path.len() == 0
    }

    /// The component at `index`.
    pub fn get(&self, index: usize) -> (r: &PathComponent)
        requires
            index < self@.len(),
        ensures
            r@ == self@[index as int],
    {
        &self.path[index]
    }
}

/// A step before the last as written in a path: `<package>/`, `<file>::` or
/// `<message>.`.
pub open spec fn step_text(c: PathComponentV) -> Seq<char> {
    match c {
        PathComponentV::Package(n) => n + "/"@,
        PathComponentV::File(n) => n + "::"@,
        PathComponentV::Message(n) => n + "."@,
        PathComponentV::Enum(n) => Seq::empty(),
    }
}

/// The steps of `s`, each as `step_text` writes it.
pub open spec fn steps_text(s: Seq<PathComponentV>) -> Seq<char>
    decreases s.len(),
{
    if s.len() == 0 {
        Seq::empty()
    } else {
        steps_text(s.drop_last()) + step_text(s.last())
    }
}

/// The text of a path: every step but the last as `step_text` writes it (the last
/// step is left out).
pub open spec fn proto_path_text(p: Seq<PathComponentV>) -> Seq<char> {
    if p.len() == 0 {
        Seq::empty()
    } else {
        steps_text(p.drop_last())
    }
}

impl ProtoPath {
    /// The path as text (see `proto_path_text`); an enum can only be the last step.
    pub fn to_text(&self) -> (r: String)
        requires
            forall|i: int| 0 <= i < self@.len() - 1 ==> !(#[trigger] self@[i] is Enum),
        ensures
            r@ == proto_path_text(self@),
    {
        let mut out = String::new();
        if self.path.len() == 0 {
            return out;
        }
        let ghost steps = self@.drop_last();
        let mut i: usize = 0;
        while i < self.path.len() - 1
            invariant
                i < self.path@.len(),
                steps == self@.drop_last(),
                forall|j: int| 0 <= j < self@.len() - 1 ==> !(#[trigger] self@[j] is Enum),
                out@ == steps_text(steps.take(i as int)),
            decreases self.path@.len() - i,
        {
            assert(self@[i as int] == self.path@[i as int]@);
            match &self.path[i] {
                PathComponent::Package(n) => {
                    out.append(n.as_str());
                    out.append("/");
                },
                PathComponent::File(n) => {
                    out.append(n.as_str());
                    out.append("::");
                },
                PathComponent::Message(n) => {
                    out.append(n.as_str());
                    out.append(".");
                },
                PathComponent::Enum(_) => {
                    assert(self@[i as int] is Enum);
                },
            }
            assert(steps.take(i + 1).drop_last() =~= steps.take(i as int));
            assert(steps[i as int] == self@[i as int]);
            assert(out@ =~= steps_text(steps.take(i + 1)));
            i = i + 1;
        }
        assert(steps.take(i as int) =~= steps);
        out
    }
}

} // verus!
