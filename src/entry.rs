use vstd::prelude::*;
use crate::error::NavError;
use crate::path::FsPath;

verus! {

/// The kind of a filesystem node.
#[derive(Clone, Copy, Debug, PartialEq, Eq, Structural)]
pub enum EntryType {
    File,
    Directory,
    Symlink,
}

/// Whether a name denotes a hidden node: it starts with a dot.
pub open spec fn hidden_name(name: Seq<char>) -> bool {
    name.len() > 0 && name[0] == '.'
}

/// Whether `name` can stand as one path component: it is not empty, is
/// neither `.` nor `..`, and holds no separator and no NUL character.
pub open spec fn valid_name(name: Seq<char>) -> bool {
    &&& name.len() > 0
    &&& name != seq!['.']
    &&& name != seq!['.', '.']
    &&& forall|i: int| 0 <= i < name.len() ==> name[i] != '/' && name[i] != '\0'
}

/// Tests whether `name` starts with a dot.
pub fn is_hidden_name(name: &String) -> (r: bool)
    ensures
        r == hidden_name(name@),
{
    let s = name.as_str();
    s.unicode_len() > 0 && s.get_char(0) == '.'
}

/// Tests whether `name` can stand as one path component.
pub fn is_valid_name(name: &String) -> (r: bool)
    ensures
        r == valid_name(name@),
{
    let s = name.as_str();
    let n = s.unicode_len();
    if n == 0 {
        return false;
    }
    if n <= 2 && s.get_char(0) == '.' && (n == 1 || s.get_char(1) == '.') {
        assert(name@ =~= seq!['.'] || name@ =~= seq!['.', '.']);
        return false;
    }
    let mut i: usize = 0;
    while i < n
        invariant
            n == name@.len(),
            s@ == name@,
            i <= n,
            forall|j: int| 0 <= j < i ==> name@[j] != '/' && name@[j] != '\0',
        decreases n - i,
    {
        let c = s.get_char(i);
        if c == '/' || c == '\0' {
            return false;
        }
        i = i + 1;
    }
    assert(name@ != seq!['.']) by {
        if n == 1 {
            assert(name@[0] != '.');
        }
    }
    assert(name@ != seq!['.', '.']) by {
        if n == 2 {
            assert(name@[0] != '.' || name@[1] != '.');
        }
    }
    true
}

/// What an entry holds, as plain values.
pub struct EntryView {
    pub path: Seq<Seq<char>>,
    pub size: u64,
    pub entry_type: EntryType,
    pub last_modified: u64,
    pub is_hidden: bool,
}

impl EntryView {
    /// The entry's name: the last component of its path.
    pub open spec fn name(self) -> Seq<char> {
        self.path.last()
    }
}

/// One file, directory or symbolic link of a directory snapshot.
///
/// `last_modified` counts seconds since the Unix epoch; it is 0 where the
/// time of last modification was not available.
pub struct Entry {
    pub path: FsPath,
    pub size: u64,
    pub entry_type: EntryType,
    pub last_modified: u64,
    pub is_hidden: bool,
}

impl View for Entry {
    type V = EntryView;

    open spec fn view(&self) -> EntryView {
        EntryView {
            path: self.path.names(),
            size: self.size,
            entry_type: self.entry_type,
            last_modified: self.last_modified,
            is_hidden: self.is_hidden,
        }
    }
}

impl Entry {
    /// An entry has an absolute path with at least one component, and is
    /// hidden exactly when its name starts with a dot.
    pub open spec fn wf(&self) -> bool {
        &&& self.path.absolute
        &&& self.path.names().len() > 0
        &&& self.is_hidden == hidden_name(self@.name())
    }

    /// The entry for the child `name` of `directory`. A missing modification
    /// time stands as the epoch.
    pub fn new(
        directory: &FsPath,
        name: &String,
        entry_type: EntryType,
        size: u64,
        last_modified: Option<u64>,
    ) -> (r: Entry)
        requires
            directory.absolute,
        ensures
            r.wf(),
            r@.path == directory.names().push(name@),
            r.size == size,
            r.entry_type == entry_type,
            r.last_modified == (match last_modified {
                Some(t) => t,
                None => 0,
            }),
            r.is_hidden == hidden_name(name@),
    {
        let t: u64 = match last_modified {
            Some(t) => t,
            None => 0,
        };
        Entry {
            path: directory.child(name),
            size,
            entry_type,
            last_modified: t,
            is_hidden: is_hidden_name(name),
        }
    }

    /// The entry's name.
    pub fn filename(&self) -> (r: String)
        requires
            self.wf(),
        ensures
            r@ == self@.name(),
    {
        self.path.parts[self.path.parts.len() - 1].clone()
    }

    /// The path that the entry would have after a rename to `new_name`: the
    /// same parent directory, with `new_name` as the last component.
    pub fn rename_target(&self, new_name: &String) -> (r: FsPath)
        requires
            self.wf(),
        ensures
            r.absolute,
            r.names() == self@.path.drop_last().push(new_name@),
    {
        let parent = self.path.parent();
        match parent {
            Some(p) => p.child(new_name),
            None => FsPath::root().child(new_name),
        }
    }

    /// Records the rename of this entry to `new_name`, whose outcome on disk
    /// is `outcome`. An invalid name is refused before anything else; a
    /// failed rename leaves the entry as it was.
    pub fn rename(&mut self, new_name: String, outcome: Result<(), NavError>) -> (r: Result<
        (),
        NavError,
    >)
        requires
            old(self).wf(),
        ensures
            final(self).wf(),
            !valid_name(new_name@) ==> r == Err::<(), NavError>(NavError::InvalidName),
            valid_name(new_name@) ==> r == outcome,
            r is Ok ==> final(self)@ == (EntryView {
                path: old(self)@.path.drop_last().push(new_name@),
                is_hidden: hidden_name(new_name@),
                ..old(self)@
            }),
            r is Err ==> *final(self) == *old(self),
    {
        if !is_valid_name(&new_name) {
            return Err(NavError::InvalidName);
        }
        if outcome.is_ok() {
            let target = self.rename_target(&new_name);
            self.path = target;
            self.is_hidden = is_hidden_name(&new_name);
            assert(self@.name() == new_name@);
        }
        outcome
    }
}

} // verus!
