use vstd::prelude::*;
use crate::entry::{Entry, EntryType, EntryView, hidden_name, is_valid_name, valid_name};
use crate::path::FsPath;

verus! {

broadcast use vstd::seq_lib::group_to_multiset_ensures;

/// What the filesystem reported of one child node's metadata. The
/// modification time counts seconds since the Unix epoch.
pub struct ChildMetadata {
    pub is_symlink: bool,
    pub is_dir: bool,
    pub len: u64,
    pub modified: Option<u64>,
}

/// One child node as the directory enumeration gave it: its name, `None`
/// where it is not valid text, and its metadata, `None` where it could not be
/// read.
pub struct ChildInfo {
    pub name: Option<String>,
    pub metadata: Option<ChildMetadata>,
}

/// The kind of a node: a symbolic link before a directory, anything else a file.
pub open spec fn kind_of(m: ChildMetadata) -> EntryType {
    if m.is_symlink {
        EntryType::Symlink
    } else if m.is_dir {
        EntryType::Directory
    } else {
        EntryType::File
    }
}

/// The entry that child `c` of the directory `dir` becomes, or `None` where
/// it is skipped: its name is missing or unusable, or its metadata missing.
pub open spec fn child_entry(dir: Seq<Seq<char>>, c: ChildInfo) -> Option<EntryView> {
    match (c.name, c.metadata) {
        (Some(n), Some(m)) => if valid_name(n@) {
            Some(
                EntryView {
                    path: dir.push(n@),
                    size: m.len,
                    entry_type: kind_of(m),
                    last_modified: match m.modified {
                        Some(t) => t,
                        None => 0,
                    },
                    is_hidden: hidden_name(n@),
                },
            )
        } else {
            None
        },
        _ => None,
    }
}

/// The entries that the children `cs` of `dir` give, in enumeration order.
pub open spec fn kept_entries(dir: Seq<Seq<char>>, cs: Seq<ChildInfo>) -> Seq<EntryView>
    decreases cs.len(),
{
    if cs.len() == 0 {
        Seq::empty()
    } else {
        let rest = kept_entries(dir, cs.drop_last());
        match child_entry(dir, cs.last()) {
            Some(e) => rest.push(e),
            None => rest,
        }
    }
}

/// Lexicographic order of names by character code.
pub open spec fn name_le(a: Seq<char>, b: Seq<char>) -> bool
    decreases a.len(),
{
    if a.len() == 0 {
        true
    } else if b.len() == 0 {
        false
    } else if a[0] != b[0] {
        (a[0] as int) < (b[0] as int)
    } else {
        name_le(a.drop_first(), b.drop_first())
    }
}

/// The order of a snapshot: directories first, then by name.
pub open spec fn entry_le(a: EntryView, b: EntryView) -> bool {
    let da = a.entry_type == EntryType::Directory;
    let db = b.entry_type == EntryType::Directory;
    (da && !db) || (da == db && name_le(a.name(), b.name()))
}

/// Each entry comes no later than the next in the snapshot order.
pub open spec fn ordered(s: Seq<EntryView>) -> bool {
    forall|i: int| 0 <= i && i + 1 < s.len() ==> #[trigger] entry_le(s[i], s[i + 1])
}

/// Every entry comes no later than every entry after it.
pub open spec fn sorted(s: Seq<EntryView>) -> bool {
    forall|i: int, j: int| 0 <= i < j < s.len() ==> #[trigger] entry_le(s[i], s[j])
}

/// The views of a sequence of entries.
pub open spec fn views(s: Seq<Entry>) -> Seq<EntryView> {
    s.map_values(|e: Entry| e@)
}

/// `s` is a snapshot of the directory `dir` whose enumeration gave `cs`: the
/// kept entries, each once, in snapshot order.
pub open spec fn snapshot_of(dir: Seq<Seq<char>>, cs: Seq<ChildInfo>, s: Seq<EntryView>) -> bool {
    &&& sorted(s)
    &&& s.to_multiset() == kept_entries(dir, cs).to_multiset()
}

/// Every entry of `s` is well formed and a child of `dir`.
pub open spec fn children_of(dir: Seq<Seq<char>>, s: Seq<Entry>) -> bool {
    forall|i: int|
        0 <= i < s.len() ==> (#[trigger] s[i]).wf() && s[i]@.path.drop_last() == dir
}

/// Any two names are ordered one way or the other.
pub proof fn lemma_name_le_total(a: Seq<char>, b: Seq<char>)
    ensures
        name_le(a, b) || name_le(b, a),
    decreases a.len(),
{
    if a.len() > 0 && b.len() > 0 && a[0] == b[0] {
        lemma_name_le_total(a.drop_first(), b.drop_first());
    } else if a.len() > 0 && b.len() > 0 {
        assert((a[0] as int) != (b[0] as int));
    }
}

/// Any two entries are ordered one way or the other.
pub proof fn lemma_entry_le_total(a: EntryView, b: EntryView)
    ensures
        entry_le(a, b) || entry_le(b, a),
{
    lemma_name_le_total(a.name(), b.name());
}

/// The order of names is transitive.
pub proof fn lemma_name_le_trans(a: Seq<char>, b: Seq<char>, c: Seq<char>)
    requires
        name_le(a, b),
        name_le(b, c),
    ensures
        name_le(a, c),
    decreases a.len(),
{
    if a.len() > 0 && b.len() > 0 && c.len() > 0 && a[0] == b[0] && b[0] == c[0] {
        lemma_name_le_trans(a.drop_first(), b.drop_first(), c.drop_first());
    }
}

/// The snapshot order is transitive.
pub proof fn lemma_entry_le_trans(a: EntryView, b: EntryView, c: EntryView)
    requires
        entry_le(a, b),
        entry_le(b, c),
    ensures
        entry_le(a, c),
{
    if a.entry_type == EntryType::Directory <==> c.entry_type == EntryType::Directory {
        lemma_name_le_trans(a.name(), b.name(), c.name());
    }
}

/// Where each entry is ordered before the next, every entry is ordered
/// before all that follow it.
pub proof fn lemma_ordered_sorted(s: Seq<EntryView>)
    requires
        ordered(s),
    ensures
        sorted(s),
{
    assert forall|i: int, j: int| 0 <= i < j < s.len() implies #[trigger] entry_le(s[i], s[j]) by {
        lemma_ordered_pair(s, i, j);
    }
}

/// In an ordered sequence, entry `i` is ordered before entry `j`.
proof fn lemma_ordered_pair(s: Seq<EntryView>, i: int, j: int)
    requires
        ordered(s),
        0 <= i < j < s.len(),
    ensures
        entry_le(s[i], s[j]),
    decreases j - i,
{
    let k = j - 1;
    assert(entry_le(s[k], s[k + 1]));
    assert(s[k + 1] == s[j]);
    if k > i {
        lemma_ordered_pair(s, i, k);
        lemma_entry_le_trans(s[i], s[k], s[j]);
    }
}

/// Compares two names in lexicographic order of character codes.
pub fn names_le(a: &String, b: &String) -> (r: bool)
    ensures
        r == name_le(a@, b@),
{
    let sa = a.as_str();
    let sb = b.as_str();
    let na = sa.unicode_len();
    let nb = sb.unicode_len();
    let mut i: usize = 0;
    assert(a@.skip(0) =~= a@);
    assert(b@.skip(0) =~= b@);
    loop
        invariant
            sa@ == a@,
            sb@ == b@,
            na == a@.len(),
            nb == b@.len(),
            i <= na,
            i <= nb,
            name_le(a@, b@) == name_le(a@.skip(i as int), b@.skip(i as int)),
        decreases na - i,
    {
        if i == na {
            return true;
        }
        if i == nb {
            return false;
        }
        let ca = sa.get_char(i);
        let cb = sb.get_char(i);
        if ca != cb {
            return ca < cb;
        }
        assert(a@.skip(i as int).drop_first() =~= a@.skip(i + 1));
        assert(b@.skip(i as int).drop_first() =~= b@.skip(i + 1));
        i = i + 1;
    }
}

/// Compares two entries in snapshot order.
fn entries_le(a: &Entry, b: &Entry) -> (r: bool)
    requires
        a.wf(),
        b.wf(),
    ensures
        r == entry_le(a@, b@),
{
    let da = a.entry_type == EntryType::Directory;
    let db = b.entry_type == EntryType::Directory;
    if da != db {
        da
    } else {
        names_le(&a.filename(), &b.filename())
    }
}

/// Inserts `e` into the ordered `v` after every entry that is ordered before
/// it; returns the position it took.
fn insert_ordered(v: &mut Vec<Entry>, e: Entry) -> (p: usize)
    requires
        ordered(views(old(v)@)),
        forall|i: int| 0 <= i < old(v)@.len() ==> (#[trigger] old(v)@[i]).wf(),
        e.wf(),
        old(v)@.len() < usize::MAX,
    ensures
        p <= old(v)@.len(),
        final(v)@ == old(v)@.insert(p as int, e),
        ordered(views(final(v)@)),
{
    let mut p: usize = 0;
    while p < v.len() && entries_le(&v[p], &e)
        invariant
            p <= v@.len(),
            v@ == old(v)@,
            forall|i: int| 0 <= i < v@.len() ==> (#[trigger] v@[i]).wf(),
            e.wf(),
            p > 0 ==> entry_le(v@[p - 1]@, e@),
        decreases v@.len() - p,
    {
        p = p + 1;
    }
    proof {
        if p < v@.len() {
            lemma_entry_le_total(v@[p as int]@, e@);
        }
    }
    let ghost s = views(v@);
    v.insert(p, e);
    proof {
        let t = views(v@);
        s.insert_ensures(p as int, e@);
        assert(t =~= s.insert(p as int, e@));
        assert forall|i: int| 0 <= i && i + 1 < t.len() implies #[trigger] entry_le(t[i], t[i + 1]) by {
            if i + 1 < p {
                assert(entry_le(s[i], s[i + 1]));
            } else if i + 1 == p {
            } else if i == p {
            } else {
                assert(entry_le(s[i - 1], s[i]));
            }
        }
    }
    p
}

/// Inserting an element anywhere in a sequence adds it to its multiset.
proof fn lemma_insert_to_multiset<A>(s: Seq<A>, p: int, x: A)
    requires
        0 <= p <= s.len(),
    ensures
        s.insert(p, x).to_multiset() =~= s.to_multiset().insert(x),
{
    broadcast use vstd::multiset::group_multiset_axioms;

    let t = s.insert(p, x);
    s.insert_ensures(p, x);
    assert(t.remove(p) =~= s);
    assert(t[p] == x);
    assert(t.contains(x));
}

/// Builds the snapshot of `directory` from what its enumeration gave:
/// children without a usable name or without metadata are skipped, the rest
/// become entries, directories first and then in order of name.
pub fn load_snapshot(directory: &FsPath, children: &Vec<ChildInfo>) -> (r: Vec<Entry>)
    requires
        directory.absolute,
    ensures
        children_of(directory.names(), r@),
        snapshot_of(directory.names(), children@, views(r@)),
{
    let ghost dir = directory.names();
    let mut r: Vec<Entry> = Vec::new();
    let mut i: usize = 0;
    assert(views(r@).to_multiset() =~= kept_entries(dir, children@.take(0)).to_multiset()) by {
        assert(views(r@) =~= Seq::<EntryView>::empty());
        assert(children@.take(0) =~= Seq::<ChildInfo>::empty());
    }
    while i < children.len()
        invariant
            dir == directory.names(),
            directory.absolute,
            i <= children@.len(),
            r@.len() <= i,
            children_of(dir, r@),
            ordered(views(r@)),
            views(r@).to_multiset() == kept_entries(dir, children@.take(i as int)).to_multiset(),
        decreases children@.len() - i,
    {
        let c = &children[i];
        assert(children@.take(i + 1).drop_last() =~= children@.take(i as int));
        assert(children@.take(i + 1).last() == children@[i as int]);
        match &c.name {
            Some(n) => match &c.metadata {
                Some(m) => {
                    if is_valid_name(n) {
                        let kind = if m.is_symlink {
                            EntryType::Symlink
                        } else if m.is_dir {
                            EntryType::Directory
                        } else {
                            EntryType::File
                        };
                        let e = Entry::new(directory, n, kind, m.len, m.modified);
                        let ghost before = r@;
                        let p = insert_ordered(&mut r, e);
                        proof {
                            before.insert_ensures(p as int, e);
                            assert forall|j: int| 0 <= j < r@.len() implies (#[trigger] r@[j]).wf()
                                && r@[j]@.path.drop_last() == dir by {
                                if j < p {
                                    assert(r@[j] == before[j]);
                                } else if j > p {
                                    assert(r@[j] == before[j - 1]);
                                } else {
                                    assert(e@.path.drop_last() =~= dir);
                                }
                            }
                            assert(views(r@) =~= views(before).insert(p as int, e@));
                            lemma_insert_to_multiset(views(before), p as int, e@);
                        }
                    }
                },
                None => {},
            },
            None => {},
        }
        i = i + 1;
    }
    assert(children@.take(i as int) =~= children@);
    proof {
        lemma_ordered_sorted(views(r@));
    }
    r
}

} // verus!
