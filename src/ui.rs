use vstd::prelude::*;
use crate::entry::{EntryType, EntryView};
use crate::error::NavError;
use crate::manager::Manager;
use crate::path::{FsPath, resolved};
use crate::snapshot::{ChildInfo, snapshot_of};

verus! {

/// One discrete input of the interaction loop.
#[derive(Clone, Copy, Debug, PartialEq, Eq, Structural)]
pub enum UIEvent {
    /// Move the selection up.
    Up,
    /// Move the selection down.
    Down,
    /// Enter the selected directory.
    In,
    /// Go to the parent directory.
    Out,
    /// Show or hide hidden entries.
    ToggleHidden,
    /// Nothing happened within the poll window.
    Idle,
    /// Leave the browser.
    Quit,
}

/// Whether entry `e` is shown: all are when hidden ones are shown, else only
/// those that are not hidden.
pub open spec fn shown(e: EntryView, show_hidden: bool) -> bool {
    show_hidden || !e.is_hidden
}

/// The visible subset of the snapshot `s`, in snapshot order.
pub open spec fn visible(s: Seq<EntryView>, show_hidden: bool) -> Seq<EntryView>
    decreases s.len(),
{
    if s.len() == 0 {
        Seq::empty()
    } else {
        let rest = visible(s.drop_last(), show_hidden);
        if shown(s.last(), show_hidden) {
            rest.push(s.last())
        } else {
            rest
        }
    }
}

/// A selection index fits a visible set of `n` entries: it points into the
/// set, or is 0 where the set is empty.
pub open spec fn index_fits(i: nat, n: nat) -> bool {
    if n == 0 {
        i == 0
    } else {
        i < n
    }
}

/// The index after Down among `n` visible entries.
pub open spec fn next_down(i: nat, n: nat) -> nat {
    if n == 0 {
        i
    } else {
        (i + 1) % n
    }
}

/// The index after Up among `n` visible entries.
pub open spec fn next_up(i: nat, n: nat) -> nat {
    if n == 0 {
        i
    } else if i == 0 {
        (n - 1) as nat
    } else {
        (i - 1) as nat
    }
}

/// The index `i` brought within a visible set of `n` entries.
pub open spec fn clamped(i: nat, n: nat) -> nat {
    if n == 0 {
        0
    } else if i < n {
        i
    } else {
        (n - 1) as nat
    }
}

/// The index after `k` Down events among `n` visible entries, from `i`.
pub open spec fn down_presses(i: nat, n: nat, k: nat) -> nat
    decreases k,
{
    if k == 0 {
        i
    } else {
        next_down(down_presses(i, n, (k - 1) as nat), n)
    }
}

/// The visible set of a concatenation is the concatenation of the visible sets.
pub proof fn lemma_visible_concat(a: Seq<EntryView>, b: Seq<EntryView>, show_hidden: bool)
    ensures
        visible(a + b, show_hidden) == visible(a, show_hidden) + visible(b, show_hidden),
    decreases b.len(),
{
    if b.len() == 0 {
        assert(a + b =~= a);
        assert(visible(a, show_hidden) + visible(b, show_hidden) =~= visible(a, show_hidden));
    } else {
        assert((a + b).drop_last() =~= a + b.drop_last());
        lemma_visible_concat(a, b.drop_last(), show_hidden);
        if shown(b.last(), show_hidden) {
            assert(visible(a, show_hidden) + visible(b, show_hidden) =~= (visible(a, show_hidden)
                + visible(b.drop_last(), show_hidden)).push(b.last()));
        }
    }
}

/// From any index of a non-empty visible set of `n` entries, `k` Down events
/// lead to index `(i + k) mod n`: the selection runs through every index in
/// turn and is back where it started after `n` of them.
pub proof fn lemma_down_cycles(i: nat, n: nat, k: nat)
    requires
        n > 0,
        i < n,
    ensures
        down_presses(i, n, k) == (i + k) % n,
        down_presses(i, n, n) == i,
{
    lemma_down_presses_mod(i, n, k);
    lemma_down_presses_n(i, n);
}

/// `n` Down events among `n` visible entries come back to the start.
proof fn lemma_down_presses_n(i: nat, n: nat)
    requires
        n > 0,
        i < n,
    ensures
        down_presses(i, n, n) == i,
{
    lemma_down_presses_mod(i, n, n);
    vstd::arithmetic::div_mod::lemma_mod_add_multiples_vanish(i as int, n as int);
    vstd::arithmetic::div_mod::lemma_small_mod(i, n);
}

/// `k` Down events from `i` lead to `(i + k) mod n`.
proof fn lemma_down_presses_mod(i: nat, n: nat, k: nat)
    requires
        n > 0,
        i < n,
    ensures
        down_presses(i, n, k) == (i + k) % n,
    decreases k,
{
    if k == 0 {
        vstd::arithmetic::div_mod::lemma_small_mod(i, n);
    } else {
        lemma_down_presses_mod(i, n, (k - 1) as nat);
        vstd::arithmetic::div_mod::lemma_add_mod_noop((i + k - 1) as int, 1, n as int);
        if n == 1 {
            vstd::arithmetic::div_mod::lemma_mod_self_0(1);
        } else {
            vstd::arithmetic::div_mod::lemma_small_mod(1, n);
        }
    }
}

/// The selection and filter state of the browser, over the navigation
/// manager that it owns.
pub struct UIManager {
    should_quit: bool,
    file_manager: Manager,
    selection_index: usize,
    show_hidden: bool,
}

impl UIManager {
    /// The navigation manager.
    pub closed spec fn nav(&self) -> Manager {
        self.file_manager
    }

    /// Whether a Quit event has arrived.
    pub closed spec fn quit_requested(&self) -> bool {
        self.should_quit
    }

    /// The selection index.
    pub closed spec fn index(&self) -> nat {
        self.selection_index as nat
    }

    /// Whether hidden entries are shown.
    pub closed spec fn hidden_shown(&self) -> bool {
        self.show_hidden
    }

    /// The visible subset of the current snapshot.
    pub open spec fn visible_set(&self) -> Seq<EntryView> {
        visible(self.nav().snapshot(), self.hidden_shown())
    }

    /// The manager is well formed and the selection index fits the visible set.
    pub open spec fn wf(&self) -> bool {
        &&& self.nav().wf()
        &&& index_fits(self.index(), self.visible_set().len())
    }

    /// A fresh state over `manager`: hidden entries not shown, the first
    /// entry selected.
    pub fn new(manager: Manager) -> (r: UIManager)
        requires
            manager.wf(),
        ensures
            r.wf(),
            r.nav() == manager,
            !r.quit_requested(),
            !r.hidden_shown(),
            r.index() == 0,
    {
        UIManager { should_quit: false, file_manager: manager, selection_index: 0, show_hidden: false }
    }

    /// The navigation manager.
    pub fn manager(&self) -> (r: &Manager)
        ensures
            *r == self.nav(),
    {
        &self.file_manager
    }

    /// Whether a Quit event has arrived.
    pub fn should_quit(&self) -> (r: bool)
        ensures
            r == self.quit_requested(),
    {
        self.should_quit
    }

    /// The selection index.
    pub fn selection_index(&self) -> (r: usize)
        ensures
            r == self.index(),
    {
        self.selection_index
    }

    /// Whether hidden entries are shown.
    pub fn show_hidden(&self) -> (r: bool)
        ensures
            r == self.hidden_shown(),
    {
        self.show_hidden
    }

    /// Brings the selection index back within the visible set, after the
    /// snapshot changed.
    pub fn update(&mut self)
        requires
            old(self).nav().wf(),
        ensures
            final(self).wf(),
            final(self).nav() == old(self).nav(),
            final(self).hidden_shown() == old(self).hidden_shown(),
            final(self).quit_requested() == old(self).quit_requested(),
            final(self).index() == clamped(old(self).index(), old(self).visible_set().len()),
    {
        let n = self.get_number_of_showed_entries();
        if n == 0 {
            self.selection_index = 0;
        } else if self.selection_index >= n {
            self.selection_index = n - 1;
        }
    }

    /// The number of visible entries.
    pub fn get_number_of_showed_entries(&self) -> (r: usize)
        requires
            self.nav().wf(),
        ensures
            r == self.visible_set().len(),
    {
        let entries = &self.file_manager.current_directory_entries;
        let ghost s = self.nav().snapshot();
        let mut count: usize = 0;
        let mut j: usize = 0;
        assert(s.take(0) =~= Seq::<EntryView>::empty());
        while j < entries.len()
            invariant
                s == self.nav().snapshot(),
                s.len() == entries@.len(),
                s == crate::snapshot::views(entries@),
                j <= s.len(),
                count <= j,
                count == visible(s.take(j as int), self.show_hidden).len(),
            decreases s.len() - j,
        {
            assert(s.take(j + 1).drop_last() =~= s.take(j as int));
            assert(s[j as int] == entries@[j as int]@);
            assert(s.take(j + 1).last() == entries@[j as int]@);
            if self.show_hidden || !entries[j].is_hidden {
                count = count + 1;
            }
            j = j + 1;
        }
        assert(s.take(j as int) =~= s);
        count
    }

    /// The names of the visible entries, in order.
    pub fn get_filenames_to_show(&self) -> (r: Vec<String>)
        requires
            self.nav().wf(),
        ensures
            r@.len() == self.visible_set().len(),
            forall|i: int| 0 <= i < r@.len() ==> #[trigger] r@[i]@ == self.visible_set()[i].name(),
    {
        let entries = &self.file_manager.current_directory_entries;
        let ghost s = self.nav().snapshot();
        let mut names: Vec<String> = Vec::new();
        let mut j: usize = 0;
        assert(s.take(0) =~= Seq::<EntryView>::empty());
        while j < entries.len()
            invariant
                s == self.nav().snapshot(),
                s.len() == entries@.len(),
                s == crate::snapshot::views(entries@),
                self.nav().wf(),
                entries@ == self.file_manager.current_directory_entries@,
                j <= s.len(),
                names@.len() == visible(s.take(j as int), self.show_hidden).len(),
                forall|i: int|
                    0 <= i < names@.len() ==> #[trigger] names@[i]@ == visible(
                        s.take(j as int),
                        self.show_hidden,
                    )[i].name(),
            decreases s.len() - j,
        {
            assert(s.take(j + 1).drop_last() =~= s.take(j as int));
            assert(s[j as int] == entries@[j as int]@);
            assert(s.take(j + 1).last() == entries@[j as int]@);
            assert(entries@[j as int].wf());
            if self.show_hidden || !entries[j].is_hidden {
                names.push(entries[j].filename());
            }
            j = j + 1;
        }
        assert(s.take(j as int) =~= s);
        names
    }

    /// The position in the snapshot of the selected visible entry, or `None`
    /// where no entry is visible.
    pub fn selected_position(&self) -> (r: Option<usize>)
        requires
            self.wf(),
        ensures
            self.visible_set().len() == 0 ==> r is None,
            self.visible_set().len() > 0 ==> (r matches Some(p) && p < self.nav().snapshot().len()
                && self.nav().snapshot()[p as int] == self.visible_set()[self.index() as int]),
    {
        let entries = &self.file_manager.current_directory_entries;
        let ghost s = self.nav().snapshot();
        let mut count: usize = 0;
        let mut j: usize = 0;
        assert(s.take(0) =~= Seq::<EntryView>::empty());
        while j < entries.len()
            invariant
                s == self.nav().snapshot(),
                s.len() == entries@.len(),
                s == crate::snapshot::views(entries@),
                self.wf(),
                j <= s.len(),
                count <= self.selection_index,
                count == visible(s.take(j as int), self.show_hidden).len(),
            decreases s.len() - j,
        {
            assert(s.take(j + 1).drop_last() =~= s.take(j as int));
            assert(s[j as int] == entries@[j as int]@);
            assert(s.take(j + 1).last() == entries@[j as int]@);
            if self.show_hidden || !entries[j].is_hidden {
                if count == self.selection_index {
                    proof {
                        assert(s =~= s.take(j + 1) + s.skip(j + 1));
                        lemma_visible_concat(s.take(j + 1), s.skip(j + 1), self.show_hidden);
                    }
                    return Some(j);
                }
                count = count + 1;
            }
            j = j + 1;
        }
        assert(s.take(j as int) =~= s);
        None
    }

    /// Shows or hides hidden entries, and brings the selection index within
    /// the new visible set.
    pub fn toggle_show_hidden(&mut self)
        requires
            old(self).wf(),
        ensures
            final(self).wf(),
            final(self).nav() == old(self).nav(),
            final(self).quit_requested() == old(self).quit_requested(),
            final(self).hidden_shown() == !old(self).hidden_shown(),
            final(self).index() == clamped(old(self).index(), final(self).visible_set().len()),
    {
        self.show_hidden = !self.show_hidden;
        self.update();
    }

    /// Moves the selection down, wrapping from the last visible entry to the
    /// first; nothing changes where no entry is visible.
    pub fn increase_index(&mut self)
        requires
            old(self).wf(),
        ensures
            final(self).wf(),
            final(self).nav() == old(self).nav(),
            final(self).hidden_shown() == old(self).hidden_shown(),
            final(self).quit_requested() == old(self).quit_requested(),
            final(self).index() == next_down(old(self).index(), old(self).visible_set().len()),
    {
        let n = self.get_number_of_showed_entries();
        if n > 0 {
            self.selection_index = (self.selection_index + 1) % n;
        }
    }

    /// Moves the selection up, wrapping from the first visible entry to the
    /// last; nothing changes where no entry is visible.
    pub fn decrease_index(&mut self)
        requires
            old(self).wf(),
        ensures
            final(self).wf(),
            final(self).nav() == old(self).nav(),
            final(self).hidden_shown() == old(self).hidden_shown(),
            final(self).quit_requested() == old(self).quit_requested(),
            final(self).index() == next_up(old(self).index(), old(self).visible_set().len()),
    {
        let n = self.get_number_of_showed_entries();
        if n > 0 {
            if self.selection_index > 0 {
                self.selection_index = self.selection_index - 1;
            } else {
                self.selection_index = n - 1;
            }
        }
    }

    /// The directory that entering the selection opens: the selected visible
    /// entry where it is a directory. Symbolic links are not followed.
    pub fn directory_to_enter(&self) -> (r: Option<FsPath>)
        requires
            self.wf(),
        ensures
            r is Some <==> (self.visible_set().len() > 0 && self.visible_set()[self.index() as int].entry_type
                == EntryType::Directory),
            r matches Some(p) ==> p.absolute && p.names() == self.visible_set()[self.index() as int].path,
    {
        match self.selected_position() {
            Some(p) => {
                let e = &self.file_manager.current_directory_entries[p];
                assert(self.nav().snapshot()[p as int] == e@);
                if e.entry_type == EntryType::Directory {
                    assert(e.wf());
                    Some(e.path.duplicate())
                } else {
                    None
                }
            },
            None => None,
        }
    }

    /// Applies one event. Up, Down, ToggleHidden, Quit and Idle take effect
    /// at once and return `None`. In and Out leave the state as it is and
    /// return the directory to read, which `complete_navigation` then takes
    /// with its enumeration; In on anything but a directory does nothing, and
    /// Out at the root only brings the selection back to the first entry.
    pub fn proccess_ui_event(&mut self, event: UIEvent) -> (r: Option<FsPath>)
        requires
            old(self).wf(),
        ensures
            final(self).wf(),
            final(self).nav() == old(self).nav(),
            match event {
                UIEvent::Up => r is None && final(self).index() == next_up(
                    old(self).index(),
                    old(self).visible_set().len(),
                ) && final(self).hidden_shown() == old(self).hidden_shown()
                    && final(self).quit_requested() == old(self).quit_requested(),
                UIEvent::Down => r is None && final(self).index() == next_down(
                    old(self).index(),
                    old(self).visible_set().len(),
                ) && final(self).hidden_shown() == old(self).hidden_shown()
                    && final(self).quit_requested() == old(self).quit_requested(),
                UIEvent::ToggleHidden => r is None && final(self).hidden_shown()
                    == !old(self).hidden_shown() && final(self).index() == clamped(
                    old(self).index(),
                    final(self).visible_set().len(),
                ) && final(self).quit_requested() == old(self).quit_requested(),
                UIEvent::Quit => r is None && final(self).quit_requested() && final(self).index()
                    == old(self).index() && final(self).hidden_shown() == old(self).hidden_shown(),
                UIEvent::Idle => r is None && *final(self) == *old(self),
                UIEvent::In => *final(self) == *old(self) && (r is Some <==> (
                old(self).visible_set().len() > 0 && old(self).visible_set()[old(
                    self,
                ).index() as int].entry_type == EntryType::Directory)) && (r matches Some(p)
                    ==> p.absolute && p.names() == old(self).visible_set()[old(
                    self,
                ).index() as int].path),
                UIEvent::Out => (old(self).nav().current_directory.names().len() == 0 ==> r is None
                    && final(self).index() == 0 && final(self).hidden_shown() == old(
                    self,
                ).hidden_shown() && final(self).quit_requested() == old(self).quit_requested()) && (
                old(self).nav().current_directory.names().len() > 0 ==> *final(self) == *old(self)
                    && (r matches Some(p) && p.absolute && p.names() == old(
                    self,
                ).nav().current_directory.names().drop_last())),
            },
    {
        match event {
            UIEvent::Up => {
                self.decrease_index();
                None
            },
            UIEvent::Down => {
                self.increase_index();
                None
            },
            UIEvent::ToggleHidden => {
                self.toggle_show_hidden();
                None
            },
            UIEvent::Quit => {
                self.should_quit = true;
                None
            },
            UIEvent::Idle => None,
            UIEvent::In => self.directory_to_enter(),
            UIEvent::Out => {
                let parent = self.file_manager.parent_directory();
                if parent.is_none() {
                    self.selection_index = 0;
                }
                parent
            },
        }
    }

    /// Makes `directory`, resolved against the current directory, the current
    /// one, given the enumeration of that resolved directory; on success the
    /// selection goes back to the first entry. On failure nothing changes.
    pub fn complete_navigation(
        &mut self,
        directory: FsPath,
        listing: Result<Vec<ChildInfo>, NavError>,
    ) -> (r: Result<(), NavError>)
        requires
            old(self).wf(),
        ensures
            final(self).wf(),
            final(self).hidden_shown() == old(self).hidden_shown(),
            final(self).quit_requested() == old(self).quit_requested(),
            match listing {
                Ok(cs) => r is Ok && final(self).index() == 0
                    && final(self).nav().current_directory.names() == resolved(
                    old(self).nav().current_directory.names(),
                    &directory,
                ) && snapshot_of(
                    final(self).nav().current_directory.names(),
                    cs@,
                    final(self).nav().snapshot(),
                ),
                Err(e) => r == Err::<(), NavError>(e) && *final(self) == *old(self),
            },
    {
        let r = self.file_manager.change_directory(directory, listing);
        if r.is_ok() {
            self.selection_index = 0;
        }
        r
    }
}

/// Showing hidden entries and hiding them again (or the other way round)
/// restores the visible set. Where the selection index also fits the other
/// visible set, it comes back unchanged and so selects the same entry.
pub proof fn lemma_toggle_twice(s: Seq<EntryView>, show_hidden: bool, i: nat)
    requires
        index_fits(i, visible(s, show_hidden).len()),
        i < visible(s, !show_hidden).len() || i == 0,
    ensures
        visible(s, !!show_hidden) == visible(s, show_hidden),
        clamped(clamped(i, visible(s, !show_hidden).len()), visible(s, !!show_hidden).len()) == i,
        visible(s, show_hidden).len() > 0 ==> visible(s, !!show_hidden)[clamped(
            clamped(i, visible(s, !show_hidden).len()),
            visible(s, !!show_hidden).len(),
        ) as int] == visible(s, show_hidden)[i as int],
{
}

} // verus!
