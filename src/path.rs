use vstd::prelude::*;

verus! {

/// A filesystem path, held as its sequence of components.
///
/// An absolute path starts at the filesystem root, which itself has no
/// components; a relative path is meant to be resolved against a directory.
pub struct FsPath {
    pub absolute: bool,
    pub parts: Vec<String>,
}

/// Copies a list of path components.
fn copy_parts(parts: &Vec<String>) -> (r: Vec<String>)
    ensures
        r@.len() == parts@.len(),
        forall|i: int| 0 <= i < parts@.len() ==> #[trigger] r@[i]@ == parts@[i]@,
{
    let mut r: Vec<String> = Vec::new();
    let mut i: usize = 0;
    while i < parts.len()
        invariant
            i <= parts@.len(),
            r@.len() == i,
            forall|j: int| 0 <= j < i ==> #[trigger] r@[j]@ == parts@[j]@,
        decreases parts@.len() - i,
    {
        r.push(parts[i].clone());
        i = i + 1;
    }
    r
}

impl FsPath {
    /// The components of the path, each as a sequence of characters.
    pub open spec fn names(&self) -> Seq<Seq<char>> {
        Seq::new(self.parts@.len(), |i: int| self.parts@[i]@)
    }

    /// The filesystem root.
    pub fn root() -> (r: FsPath)
        ensures
            r.absolute,
            r.names() == Seq::<Seq<char>>::empty(),
    {
        let r = FsPath { absolute: true, parts: Vec::new() };
        assert(r.names() =~= Seq::<Seq<char>>::empty());
        r
    }

    /// A copy of this path.
    pub fn duplicate(&self) -> (r: FsPath)
        ensures
            r.absolute == self.absolute,
            r.names() == self.names(),
    {
        let r = FsPath { absolute: self.absolute, parts: copy_parts(&self.parts) };
        assert(r.names() =~= self.names());
        r
    }

    /// Whether the path has no components (the root, for an absolute path).
    pub fn is_root(&self) -> (r: bool)
        ensures
            r == (self.names().len() == 0),
    {
        self.parts.len() == 0
    }

    /// The path with one more component, `name`, at its end.
    pub fn child(&self, name: &String) -> (r: FsPath)
        ensures
            r.absolute == self.absolute,
            r.names() == self.names().push(name@),
    {
        let mut parts = copy_parts(&self.parts);
        parts.push(name.clone());
        let r = FsPath { absolute: self.absolute, parts };
        assert(r.names() =~= self.names().push(name@));
        r
    }

    /// The path without its last component, or `None` where it has none.
    pub fn parent(&self) -> (r: Option<FsPath>)
        ensures
            self.names().len() == 0 ==> r is None,
            self.names().len() > 0 ==> (r matches Some(p) && p.absolute == self.absolute
                && p.names() == self.names().drop_last()),
    {
        if self.parts.len() == 0 {
            return None;
        }
        let n = self.parts.len() - 1;
        let mut parts: Vec<String> = Vec::new();
        let mut i: usize = 0;
        while i < n
            invariant
                n == self.parts@.len() - 1,
                i <= n,
                parts@.len() == i,
                forall|j: int| 0 <= j < i ==> #[trigger] parts@[j]@ == self.parts@[j]@,
            decreases n - i,
        {
            parts.push(self.parts[i].clone());
            i = i + 1;
        }
        let p = FsPath { absolute: self.absolute, parts };
        assert(p.names() =~= self.names().drop_last());
        Some(p)
    }

    /// The last component of the path, or `None` where it has none.
    pub fn file_name(&self) -> (r: Option<String>)
        ensures
            self.names().len() == 0 ==> r is None,
            self.names().len() > 0 ==> (r matches Some(s) && s@ == self.names().last()),
    {
        if self.parts.len() == 0 {
            None
        } else {
            Some(self.parts[self.parts.len() - 1].clone())
        }
    }
}

/// The components of `path` resolved against the directory `base`: an absolute
/// path stands as it is, a relative one is appended to `base`.
pub open spec fn resolved(base: Seq<Seq<char>>, path: &FsPath) -> Seq<Seq<char>> {
    if path.absolute {
        path.names()
    } else {
        base + path.names()
    }
}

/// Resolves `path` against the directory `base`.
pub fn resolve(base: &FsPath, path: &FsPath) -> (r: FsPath)
    ensures
        r.absolute == (base.absolute || path.absolute),
        r.names() == resolved(base.names(), path),
{
    if path.absolute {
        path.duplicate()
    } else {
        let mut parts = copy_parts(&base.parts);
        let mut i: usize = 0;
        while i < path.parts.len()
            invariant
                i <= path.parts@.len(),
                parts@.len() == base.parts@.len() + i,
                forall|j: int| 0 <= j < base.parts@.len() ==> #[trigger] parts@[j]@ == base.parts@[j]@,
                forall|j: int|
                    0 <= j < i ==> #[trigger] parts@[base.parts@.len() + j]@ == path.parts@[j]@,
            decreases path.parts@.len() - i,
        {
            parts.push(path.parts[i].clone());
            i = i + 1;
        }
        let r = FsPath { absolute: base.absolute, parts };
        assert forall|j: int| 0 <= j < r.names().len() implies r.names()[j] == (base.names()
            + path.names())[j] by {
            if j >= base.parts@.len() {
                let k = j - base.parts@.len();
                assert(parts@[base.parts@.len() + k]@ == path.parts@[k]@);
            }
        }
        assert(r.names() =~= base.names() + path.names());
        r
    }
}

} // verus!
