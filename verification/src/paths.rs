//! POSIX paths as sequences of components.

use crate::order::{
    key_less, keys_are_totally_ordered, standing, take_one_more, views, views_push, KeyModel, Keyed,
    Standing,
};
use vstd::prelude::*;

verus! {

broadcast use views_push;

/// One component of a path.
#[derive(Debug)]
pub enum PathPart {
    /// The root directory.
    Root,
    /// The current directory, at the beginning of a relative path.
    Here,
    /// The parent directory.
    Parent,
    /// A name, as the bytes of the file system.
    Name(Vec<u8>),
}

/// The model of a [`PathPart`].
pub enum PartModel {
    Root,
    Here,
    Parent,
    Name(Seq<u8>),
}

impl View for PathPart {
    type V = PartModel;

    open spec fn view(&self) -> PartModel {
        match self {
            PathPart::Root => PartModel::Root,
            PathPart::Here => PartModel::Here,
            PathPart::Parent => PartModel::Parent,
            PathPart::Name(name) => PartModel::Name(name@),
        }
    }
}

/// A path.
#[derive(Debug)]
pub struct FilePath {
    pub parts: Vec<PathPart>,
}

/// The model of a [`FilePath`].
pub struct PathModel {
    pub parts: Seq<PartModel>,
}

impl View for FilePath {
    type V = PathModel;

    open spec fn view(&self) -> PathModel {
        PathModel { parts: views(self.parts@) }
    }
}

/// The name `snapshots`.
pub open spec fn snapshots_name() -> Seq<u8> {
    seq![115u8, 110, 97, 112, 115, 104, 111, 116, 115]
}

/// The name `blobs`.
pub open spec fn blobs_name() -> Seq<u8> {
    seq![98u8, 108, 111, 98, 115]
}

impl PathModel {
    pub open spec fn absolute(self) -> bool {
        self.parts.len() > 0 && self.parts[0] is Root
    }

    /// Some component is the parent directory.
    pub open spec fn ascends(self) -> bool {
        exists|i: int| 0 <= i < self.parts.len() && #[trigger] self.parts[i] is Parent
    }

    /// The components of `base` come first.
    pub open spec fn starts_with(self, base: PathModel) -> bool {
        base.parts.len() <= self.parts.len() && self.parts.take(base.parts.len() as int)
            == base.parts
    }

    /// The path without its last component, unless that is the root.
    pub open spec fn parent(self) -> Option<PathModel> {
        if self.parts.len() == 0 || self.parts.last() is Root {
            None
        } else {
            Some(PathModel { parts: self.parts.drop_last() })
        }
    }

    /// The last component, where it is a name.
    pub open spec fn file_name(self) -> Option<Seq<u8>> {
        if self.parts.len() == 0 {
            None
        } else {
            match self.parts.last() {
                PartModel::Name(name) => Some(name),
                _ => None,
            }
        }
    }

    /// The path with one more component.
    pub open spec fn child(self, name: Seq<u8>) -> PathModel {
        PathModel { parts: self.parts.push(PartModel::Name(name)) }
    }
}

/// The key of a component. A name ends with a mark below every byte, so that a
/// name comes before its own extensions whatever follows.
pub open spec fn part_key(part: PartModel) -> Seq<int> {
    match part {
        PartModel::Root => seq![0int],
        PartModel::Here => seq![1int],
        PartModel::Parent => seq![2int],
        PartModel::Name(name) => seq![3int] + Seq::new(name.len(), |i: int| name[i] as int + 1)
            + seq![0int],
    }
}

/// The key of a path: the keys of its components, one after the other.
pub open spec fn path_key(parts: Seq<PartModel>) -> Seq<int>
    decreases parts.len(),
{
    if parts.len() == 0 {
        Seq::empty()
    } else {
        path_key(parts.drop_last()) + part_key(parts.last())
    }
}

impl KeyModel for PathModel {
    open spec fn key(self) -> Seq<int> {
        path_key(self.parts)
    }
}

proof fn lemma_key_from_the_front(parts: Seq<PartModel>)
    requires
        parts.len() > 0,
    ensures
        path_key(parts) == part_key(parts[0]) + path_key(parts.skip(1)),
    decreases parts.len(),
{
    if parts.len() == 1 {
        assert(parts.drop_last() =~= Seq::empty());
        assert(parts.skip(1) =~= Seq::empty());
        assert(path_key(parts) =~= part_key(parts[0]) + path_key(parts.skip(1)));
    } else {
        let front = parts.drop_last();
        lemma_key_from_the_front(front);
        assert(front[0] == parts[0]);
        assert(front.skip(1) =~= parts.skip(1).drop_last());
        assert(parts.skip(1).last() == parts.last());
        assert(path_key(parts) =~= part_key(parts[0]) + path_key(parts.skip(1)));
    }
}

proof fn lemma_component_is_read_back(p: PartModel, q: PartModel, x: Seq<int>, y: Seq<int>)
    requires
        part_key(p) + x == part_key(q) + y,
    ensures
        p == q,
        x == y,
{
    let left = part_key(p) + x;
    let right = part_key(q) + y;
    assert(left[0] == right[0]);
    assert(left[0] == part_key(p)[0] && right[0] == part_key(q)[0]);
    if let PartModel::Name(a) = p {
        if let PartModel::Name(b) = q {
            assert(left[1 + a.len() as int] == 0);
            assert(right[1 + b.len() as int] == 0);
            if a.len() < b.len() {
                assert(right[1 + a.len() as int] == b[a.len() as int] as int + 1);
            }
            if b.len() < a.len() {
                assert(left[1 + b.len() as int] == a[b.len() as int] as int + 1);
            }
            assert forall|i: int| 0 <= i < a.len() implies a[i] == b[i] by {
                assert(left[1 + i] == a[i] as int + 1);
                assert(right[1 + i] == b[i] as int + 1);
            }
            assert(a =~= b);
        }
    }
    assert(p == q);
    let n = part_key(p).len() as int;
    assert(left.skip(n) =~= x);
    assert(right.skip(n) =~= y);
}

/// Paths with the same key are the same.
pub proof fn path_keys_are_faithful(a: PathModel, b: PathModel)
    ensures
        a.key() == b.key() <==> a == b,
    decreases a.parts.len(),
{
    if a.key() == b.key() {
        if a.parts.len() > 0 {
            lemma_key_from_the_front(a.parts);
        }
        if b.parts.len() > 0 {
            lemma_key_from_the_front(b.parts);
        }
        if a.parts.len() > 0 && b.parts.len() > 0 {
            lemma_component_is_read_back(
                a.parts[0],
                b.parts[0],
                path_key(a.parts.skip(1)),
                path_key(b.parts.skip(1)),
            );
            path_keys_are_faithful(
                PathModel { parts: a.parts.skip(1) },
                PathModel { parts: b.parts.skip(1) },
            );
            assert(a.parts =~= seq![a.parts[0]] + a.parts.skip(1));
            assert(b.parts =~= seq![b.parts[0]] + b.parts.skip(1));
        } else {
            assert(path_key(a.parts).len() == path_key(b.parts).len());
            assert(a.parts =~= b.parts);
        }
    }
}

/// A key held in memory.
pub open spec fn held(key: Seq<u16>) -> Seq<int> {
    Seq::new(key.len(), |i: int| key[i] as int)
}

/// Compares two keys held in memory.
fn key_standing(a: &Vec<u16>, b: &Vec<u16>) -> (result: Standing)
    ensures
        result == standing(held(a@), held(b@)),
{
    let ghost x = held(a@);
    let ghost y = held(b@);
    assert(x.skip(0) == x && y.skip(0) == y);
    let mut i: usize = 0;
    while i < a.len() && i < b.len()
        invariant
            i <= a.len(),
            i <= b.len(),
            x == held(a@),
            y == held(b@),
            x.take(i as int) == y.take(i as int),
            key_less(x, y) == key_less(x.skip(i as int), y.skip(i as int)),
        decreases a.len() - i,
    {
        assert(x[i as int] == a@[i as int] as int && y[i as int] == b@[i as int] as int);
        if a[i] < b[i] {
            return Standing::Before;
        }
        if b[i] < a[i] {
            assert(x != y) by {
                assert(x[i as int] != y[i as int]);
            }
            return Standing::After;
        }
        assert(x.skip(i as int).skip(1) == x.skip(i + 1));
        assert(y.skip(i as int).skip(1) == y.skip(i + 1));
        assert(x.take(i + 1) =~= x.take(i as int).push(x[i as int]));
        assert(y.take(i + 1) =~= y.take(i as int).push(y[i as int]));
        i = i + 1;
    }
    if i < b.len() {
        Standing::Before
    } else if i < a.len() {
        assert(x.len() != y.len());
        Standing::After
    } else {
        assert(x.take(i as int) =~= x && y.take(i as int) =~= y);
        proof {
            keys_are_totally_ordered(x, y);
        }
        Standing::Same
    }
}

/// Whether two names are the same bytes.
fn bytes_eq(a: &Vec<u8>, b: &Vec<u8>) -> (same: bool)
    ensures
        same == (a@ == b@),
{
    if a.len() != b.len() {
        return false;
    }
    for i in 0..a.len()
        invariant
            a@.len() == b@.len(),
            forall|j: int| 0 <= j < i ==> a@[j] == b@[j],
    {
        if a[i] != b[i] {
            return false;
        }
    }
    assert(a@ =~= b@);
    true
}

/// A copy of some bytes.
fn bytes_copy(bytes: &Vec<u8>) -> (copy: Vec<u8>)
    ensures
        copy@ == bytes@,
{
    let mut copy: Vec<u8> = Vec::new();
    for i in 0..bytes.len()
        invariant
            copy@ == bytes@.take(i as int),
    {
        copy.push(bytes[i]);
        assert(bytes@.take(i + 1) == bytes@.take(i as int).push(bytes@[i as int]));
    }
    assert(bytes@.take(bytes@.len() as int) == bytes@);
    copy
}

impl PathPart {
    /// Whether two components are the same.
    pub fn same(&self, other: &PathPart) -> (same: bool)
        ensures
            same == (self@ == other@),
    {
        match (self, other) {
            (PathPart::Root, PathPart::Root) => true,
            (PathPart::Here, PathPart::Here) => true,
            (PathPart::Parent, PathPart::Parent) => true,
            (PathPart::Name(a), PathPart::Name(b)) => bytes_eq(a, b),
            _ => false,
        }
    }

    /// A copy of the component.
    pub fn duplicate(&self) -> (copy: PathPart)
        ensures
            copy@ == self@,
    {
        match self {
            PathPart::Root => PathPart::Root,
            PathPart::Here => PathPart::Here,
            PathPart::Parent => PathPart::Parent,
            PathPart::Name(name) => PathPart::Name(bytes_copy(name)),
        }
    }
}

impl FilePath {
    /// The key of the path.
    fn key_held(&self) -> (key: Vec<u16>)
        ensures
            held(key@) == self@.key(),
    {
        let ghost models = self@.parts;
        let mut key: Vec<u16> = Vec::new();
        assert(held(key@) =~= path_key(models.take(0)));
        for i in 0..self.parts.len()
            invariant
                models == self@.parts,
                held(key@) == path_key(models.take(i as int)),
        {
            assert(models.take(i + 1).drop_last() == models.take(i as int));
            assert(models[i as int] == self.parts@[i as int]@);
            let ghost before = held(key@);
            match &self.parts[i] {
                PathPart::Root => {
                    key.push(0);
                    assert(held(key@) =~= before + part_key(models[i as int]));
                },
                PathPart::Here => {
                    key.push(1);
                    assert(held(key@) =~= before + part_key(models[i as int]));
                },
                PathPart::Parent => {
                    key.push(2);
                    assert(held(key@) =~= before + part_key(models[i as int]));
                },
                PathPart::Name(name) => {
                    let ghost marked = Seq::new(name@.len(), |j: int| name@[j] as int + 1);
                    key.push(3);
                    assert(held(key@) =~= before + seq![3int] + marked.take(0));
                    for k in 0..name.len()
                        invariant
                            marked == Seq::new(name@.len(), |j: int| name@[j] as int + 1),
                            held(key@) == before + seq![3int] + marked.take(k as int),
                    {
                        let ghost shorter = held(key@);
                        key.push(name[k] as u16 + 1);
                        assert(held(key@) =~= shorter.push(marked[k as int]));
                        proof {
                            take_one_more(marked, k as int);
                        }
                        assert(held(key@) =~= before + seq![3int] + marked.take(k + 1));
                    }
                    assert(marked.take(marked.len() as int) == marked);
                    let ghost shorter = held(key@);
                    key.push(0);
                    assert(held(key@) =~= shorter.push(0));
                    assert(held(key@) =~= before + part_key(models[i as int]));
                },
            }
        }
        assert(models.take(models.len() as int) == models);
        key
    }

    /// Whether the components of `base` come first.
    pub fn starts_with(&self, base: &FilePath) -> (inside: bool)
        ensures
            inside == self@.starts_with(base@),
    {
        if base.parts.len() > self.parts.len() {
            return false;
        }
        for i in 0..base.parts.len()
            invariant
                base.parts.len() <= self.parts.len(),
                forall|j: int| 0 <= j < i ==> self@.parts[j] == #[trigger] base@.parts[j],
        {
            assert(self@.parts[i as int] == self.parts@[i as int]@);
            assert(base@.parts[i as int] == base.parts@[i as int]@);
            if !self.parts[i].same(&base.parts[i]) {
                assert(self@.parts.take(base@.parts.len() as int)[i as int]
                    != base@.parts[i as int]);
                return false;
            }
        }
        assert(self@.parts.take(base@.parts.len() as int) =~= base@.parts);
        true
    }

    /// Whether two paths have the same components.
    pub fn same(&self, other: &FilePath) -> (same: bool)
        ensures
            same == (self@ == other@),
    {
        if self.parts.len() == other.parts.len() && self.starts_with(other) {
            assert(self@.parts.take(other@.parts.len() as int) =~= self@.parts);
            true
        } else {
            proof {
                if self@ == other@ {
                    assert(self@.parts.take(other@.parts.len() as int) =~= self@.parts);
                    assert(self@.parts.len() == other@.parts.len());
                }
            }
            false
        }
    }

    /// Whether the path begins at the root.
    pub fn is_absolute(&self) -> (absolute: bool)
        ensures
            absolute == self@.absolute(),
    {
        if self.parts.len() == 0 {
            return false;
        }
        assert(self@.parts[0] == self.parts@[0]@);
        match &self.parts[0] {
            PathPart::Root => true,
            _ => false,
        }
    }

    /// Whether some component is the parent directory.
    pub fn has_parent_part(&self) -> (ascends: bool)
        ensures
            ascends == self@.ascends(),
    {
        for i in 0..self.parts.len()
            invariant
                forall|j: int| 0 <= j < i ==> !(#[trigger] self@.parts[j] is Parent),
        {
            assert(self@.parts[i as int] == self.parts@[i as int]@);
            if let PathPart::Parent = &self.parts[i] {
                return true;
            }
        }
        false
    }

    /// The path without its last component, unless that is the root.
    pub fn parent(&self) -> (parent: Option<FilePath>)
        ensures
            match parent {
                Some(path) => self@.parent() == Some(path@),
                None => self@.parent() is None,
            },
    {
        let n: usize = self.parts.len();
        if n == 0 {
            return None;
        }
        assert(self@.parts.last() == self.parts@[n - 1]@);
        if let PathPart::Root = &self.parts[n - 1] {
            return None;
        }
        let mut parts: Vec<PathPart> = Vec::new();
        for i in 0..n - 1
            invariant
                n == self.parts.len(),
                n > 0,
                views(parts@) == self@.parts.take(i as int),
        {
            assert(self@.parts[i as int] == self.parts@[i as int]@);
            parts.push(self.parts[i].duplicate());
            proof {
                take_one_more(self@.parts, i as int);
            }
        }
        assert(self@.parts.take(n - 1) =~= self@.parts.drop_last());
        Some(FilePath { parts })
    }

    /// Whether the last component is the given name.
    pub fn has_file_name(&self, name: &Vec<u8>) -> (named: bool)
        ensures
            named == (self@.file_name() == Some(name@)),
    {
        let n: usize = self.parts.len();
        if n == 0 {
            return false;
        }
        assert(self@.parts.last() == self.parts@[n - 1]@);
        match &self.parts[n - 1] {
            PathPart::Name(own) => bytes_eq(own, name),
            _ => false,
        }
    }

    /// The path with one more component.
    pub fn join_name(self, name: Vec<u8>) -> (path: FilePath)
        ensures
            path@ == self@.child(name@),
    {
        let mut parts = self.parts;
        let ghost before = parts@;
        parts.push(PathPart::Name(name));
        assert(views(parts@) =~= views(before).push(
            PartModel::Name(name@),
        ));
        FilePath { parts }
    }

    /// A copy of the path.
    pub fn duplicate(&self) -> (copy: FilePath)
        ensures
            copy@ == self@,
    {
        let mut parts: Vec<PathPart> = Vec::new();
        for i in 0..self.parts.len()
            invariant
                views(parts@) == self@.parts.take(i as int),
        {
            assert(self@.parts[i as int] == self.parts@[i as int]@);
            parts.push(self.parts[i].duplicate());
            proof {
                take_one_more(self@.parts, i as int);
            }
        }
        assert(self@.parts.take(self@.parts.len() as int) =~= self@.parts);
        FilePath { parts }
    }
}

impl Keyed for FilePath {
    fn stand(&self, other: &Self) -> (standing: Standing) {
        let a = self.key_held();
        let b = other.key_held();
        key_standing(&a, &b)
    }
}

/// Of two paths that a third one starts with, one starts with the other.
pub proof fn two_prefixes_nest(inner: PathModel, a: PathModel, b: PathModel)
    requires
        inner.starts_with(a),
        inner.starts_with(b),
    ensures
        a.starts_with(b) || b.starts_with(a),
{
    let n = if a.parts.len() <= b.parts.len() {
        a.parts.len() as int
    } else {
        b.parts.len() as int
    };
    assert(a.parts.take(n) =~= inner.parts.take(n));
    assert(b.parts.take(n) =~= inner.parts.take(n));
    assert(a.parts.take(a.parts.len() as int) =~= a.parts);
    assert(b.parts.take(b.parts.len() as int) =~= b.parts);
}

/// A child goes back to its parent and is named as it was made; the root and the empty
/// path have neither a parent nor a name, and a path that ends in anything but a name
/// has no name.
pub proof fn children_go_back_to_their_parents(path: PathModel, name: Seq<u8>)
    ensures
        path.child(name).parent() == Some(path),
        path.child(name).file_name() == Some(name),
        path.child(name).starts_with(path),
        path.child(name).absolute() <==> path.parts.len() > 0 && path.parts[0] is Root,
        path.parts.len() == 0 ==> path.parent() is None && path.file_name() is None,
        path.parts.len() > 0 && path.parts.last() is Root ==> path.parent() is None
            && path.file_name() is None,
        path.parts.len() > 0 && !(path.parts.last() is Name) ==> path.file_name() is None,
        path.parent() matches Some(parent) ==> parent.parts.push(path.parts.last()) == path.parts,
{
    assert(path.child(name).parts.drop_last() =~= path.parts);
    assert(path.child(name).parts.take(path.parts.len() as int) =~= path.parts);
    if path.parts.len() > 0 {
        assert(path.parts.drop_last().push(path.parts.last()) =~= path.parts);
    }
}

/// A path ascends exactly where one of its parts goes to the parent, so putting a part
/// behind it makes it ascend only if that part does.
pub proof fn paths_ascend_by_their_parts(path: PathModel, part: PartModel)
    ensures
        (PathModel { parts: path.parts.push(part) }).ascends() <==> path.ascends() || part is Parent,
        !(PathModel { parts: Seq::<PartModel>::empty() }).ascends(),
        (PathModel { parts: seq![part] }).absolute() <==> part is Root,
{
    let longer = path.parts.push(part);
    if path.ascends() {
        let i = choose|i: int| 0 <= i < path.parts.len() && #[trigger] path.parts[i] is Parent;
        assert(longer[i] is Parent);
    }
    if part is Parent {
        assert(longer[path.parts.len() as int] is Parent);
    }
    if (PathModel { parts: longer }).ascends() {
        let i = choose|i: int| 0 <= i < longer.len() && #[trigger] longer[i] is Parent;
        if i < path.parts.len() {
            assert(path.parts[i] is Parent);
        }
    }
}

} // verus!
