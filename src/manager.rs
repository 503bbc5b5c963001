use vstd::prelude::*;
use crate::entry::{Entry, EntryView, hidden_name, is_valid_name, valid_name};
use crate::error::NavError;
use crate::path::{FsPath, resolve, resolved};
use crate::snapshot::{ChildInfo, children_of, load_snapshot, snapshot_of, views};

verus! {

/// Why renaming entry `index` of the snapshot `s` to `name` is refused before
/// the filesystem is asked, or `None` where it is not.
pub open spec fn rename_refusal(s: Seq<EntryView>, index: int, name: Seq<char>) -> Option<NavError> {
    if !(0 <= index < s.len()) {
        Some(NavError::NotFound)
    } else if !valid_name(name) {
        Some(NavError::InvalidName)
    } else if exists|j: int| 0 <= j < s.len() && (#[trigger] s[j]).name() == name {
        Some(NavError::NameCollision)
    } else {
        None
    }
}

/// The entry `e` after a rename to `name`.
pub open spec fn renamed(e: EntryView, name: Seq<char>) -> EntryView {
    EntryView { path: e.path.drop_last().push(name), is_hidden: hidden_name(name), ..e }
}

/// Owns the current directory and its snapshot.
pub struct Manager {
    pub current_directory: FsPath,
    pub current_directory_entries: Vec<Entry>,
}

impl Manager {
    /// The current directory is absolute and every entry of the snapshot is a
    /// well-formed child of it.
    pub open spec fn wf(&self) -> bool {
        &&& self.current_directory.absolute
        &&& children_of(self.current_directory.names(), self.current_directory_entries@)
    }

    /// The current snapshot, as plain values.
    pub open spec fn snapshot(&self) -> Seq<EntryView> {
        views(self.current_directory_entries@)
    }

    /// A manager whose current directory is `directory` (a relative path
    /// stands from the root), given the enumeration of that directory. It
    /// fails with the enumeration's error, so that no manager exists without
    /// a readable directory.
    pub fn with_directory(directory: FsPath, listing: Result<Vec<ChildInfo>, NavError>) -> (r:
        Result<Manager, NavError>)
        ensures
            match listing {
                Ok(cs) => r matches Ok(m) && m.wf() && m.current_directory.names()
                    == directory.names() && snapshot_of(directory.names(), cs@, m.snapshot()),
                Err(e) => r == Err::<Manager, NavError>(e),
            },
    {
        let mut manager = Manager { current_directory: FsPath::root(), current_directory_entries: Vec::new() };
        assert(Seq::<Seq<char>>::empty() + directory.names() =~= directory.names());
        match manager.change_directory(directory, listing) {
            Ok(()) => Ok(manager),
            Err(e) => Err(e),
        }
    }

    /// Makes `new_directory`, resolved against the current directory, the
    /// current one, given the enumeration of that resolved directory. On
    /// failure the directory and the snapshot stay as they were.
    pub fn change_directory(
        &mut self,
        new_directory: FsPath,
        listing: Result<Vec<ChildInfo>, NavError>,
    ) -> (r: Result<(), NavError>)
        requires
            old(self).wf(),
        ensures
            final(self).wf(),
            match listing {
                Ok(cs) => r is Ok && final(self).current_directory.names() == resolved(
                    old(self).current_directory.names(),
                    &new_directory,
                ) && snapshot_of(final(self).current_directory.names(), cs@, final(self).snapshot()),
                Err(e) => r == Err::<(), NavError>(e) && *final(self) == *old(self),
            },
    {
        match listing {
            Ok(children) => {
                let full = resolve(&self.current_directory, &new_directory);
                let entries = load_snapshot(&full, &children);
                self.current_directory = full;
                self.current_directory_entries = entries;
                Ok(())
            },
            Err(e) => Err(e),
        }
    }

    /// The parent of the current directory, or `None` at the root.
    pub fn parent_directory(&self) -> (r: Option<FsPath>)
        requires
            self.wf(),
        ensures
            self.current_directory.names().len() == 0 ==> r is None,
            self.current_directory.names().len() > 0 ==> (r matches Some(p) && p.absolute
                && p.names() == self.current_directory.names().drop_last()),
    {
        self.current_directory.parent()
    }

    /// Moves to the parent of the current directory, given the enumeration of
    /// that parent. At the root nothing changes and the move succeeds.
    pub fn move_to_parent_directory(&mut self, listing: Result<Vec<ChildInfo>, NavError>) -> (r:
        Result<(), NavError>)
        requires
            old(self).wf(),
        ensures
            final(self).wf(),
            old(self).current_directory.names().len() == 0 ==> r is Ok && *final(self) == *old(
                self,
            ),
            old(self).current_directory.names().len() > 0 ==> match listing {
                Ok(cs) => r is Ok && final(self).current_directory.names() == old(
                    self,
                ).current_directory.names().drop_last() && snapshot_of(
                    final(self).current_directory.names(),
                    cs@,
                    final(self).snapshot(),
                ),
                Err(e) => r == Err::<(), NavError>(e) && *final(self) == *old(self),
            },
    {
        match self.parent_directory() {
            Some(dir) => self.change_directory(dir, listing),
            None => Ok(()),
        }
    }

    /// Whether some entry of the snapshot is named `name`.
    pub fn name_taken(&self, name: &String) -> (r: bool)
        requires
            self.wf(),
        ensures
            r == exists|j: int|
                0 <= j < self.snapshot().len() && (#[trigger] self.snapshot()[j]).name() == name@,
    {
        let mut j: usize = 0;
        while j < self.current_directory_entries.len()
            invariant
                self.wf(),
                j <= self.snapshot().len(),
                forall|k: int| 0 <= k < j ==> (#[trigger] self.snapshot()[k]).name() != name@,
            decreases self.snapshot().len() - j,
        {
            let n = self.current_directory_entries[j].filename();
            if n == *name {
                assert(self.snapshot()[j as int].name() == name@);
                return true;
            }
            j = j + 1;
        }
        false
    }

    /// The paths that renaming entry `index` to `new_name` moves from and to,
    /// or why that rename is refused: no such entry, an unusable name, or a
    /// name that another entry already has.
    pub fn plan_rename(&self, index: usize, new_name: &String) -> (r: Result<
        (FsPath, FsPath),
        NavError,
    >)
        requires
            self.wf(),
        ensures
            match rename_refusal(self.snapshot(), index as int, new_name@) {
                Some(e) => r == Err::<(FsPath, FsPath), NavError>(e),
                None => r matches Ok((from, to)) && from.absolute && to.absolute && from.names()
                    == self.snapshot()[index as int].path && to.names() == renamed(
                    self.snapshot()[index as int],
                    new_name@,
                ).path,
            },
    {
        if index >= self.current_directory_entries.len() {
            return Err(NavError::NotFound);
        }
        if !is_valid_name(new_name) {
            return Err(NavError::InvalidName);
        }
        if self.name_taken(new_name) {
            return Err(NavError::NameCollision);
        }
        let e = &self.current_directory_entries[index];
        Ok((e.path.duplicate(), e.rename_target(new_name)))
    }

    /// Records the rename of entry `index` to `new_name`, whose outcome on
    /// disk is `outcome` (the rename between the paths that `plan_rename`
    /// gives). A refused rename reports its reason and a failed one the
    /// outcome's error; both leave the snapshot as it was. A successful one
    /// updates that entry in place.
    pub fn rename(&mut self, index: usize, new_name: String, outcome: Result<(), NavError>) -> (r:
        Result<(), NavError>)
        requires
            old(self).wf(),
        ensures
            final(self).wf(),
            final(self).current_directory == old(self).current_directory,
            match rename_refusal(old(self).snapshot(), index as int, new_name@) {
                Some(e) => r == Err::<(), NavError>(e),
                None => r == outcome,
            },
            r is Ok ==> final(self).snapshot() == old(self).snapshot().update(
                index as int,
                renamed(old(self).snapshot()[index as int], new_name@),
            ),
            r is Err ==> final(self).snapshot() == old(self).snapshot(),
    {
        match self.plan_rename(index, &new_name) {
            Err(e) => Err(e),
            Ok(_) => {
                let ghost before = self.current_directory_entries@;
                let mut e = self.current_directory_entries.remove(index);
                let r = e.rename(new_name, outcome);
                self.current_directory_entries.insert(index, e);
                proof {
                    let after = self.current_directory_entries@;
                    before.remove_ensures(index as int);
                    before.remove(index as int).insert_ensures(index as int, e);
                    assert forall|j: int| 0 <= j < after.len() implies (#[trigger] after[j]).wf()
                        && after[j]@.path.drop_last() == self.current_directory.names() by {
                        if j != index {
                            assert(after[j] == before[j]);
                        } else {
                            assert(after[j]@.path.drop_last() =~= before[j]@.path.drop_last());
                        }
                    }
                    if r is Ok {
                        assert(views(after) =~= views(before).update(
                            index as int,
                            renamed(views(before)[index as int], new_name@),
                        ));
                    } else {
                        assert(after =~= before);
                    }
                }
                r
            },
        }
    }
}

} // verus!
