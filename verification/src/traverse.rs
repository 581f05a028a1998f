//! Traversal units and per-unit result stores.
//!
//! A traversal unit is one tree snapshot to process: a root prefix (empty for
//! the top-level repository) and a tree identifier. Listing a unit's tree
//! yields its regular-file entries and the sub-repositories it mounts; a
//! sub-repository that resolves to a tree becomes a child unit whose root is
//! the parent root joined with its relative path, and one that cannot be
//! opened is skipped, so its files contribute no entries at all.

use vstd::prelude::*;

use crate::bytes::join;
use crate::bytes::join_path;
use crate::bytes::copy_bytes;
use crate::classify::classify;
use crate::classify::classify_spec;
use crate::classify::opt_entry_view;
use crate::classify::Entry;
use crate::classify::EntryV;
use crate::classify::Overrides;
use crate::language::Catalog;

verus! {

/// The mode of one tree entry. Only regular files are classified; a commit
/// entry records a sub-repository; everything else is dropped.
#[derive(Clone, Copy, PartialEq, Eq, Structural)]
pub enum EntryMode {
    File,
    FileExecutable,
    Symlink,
    Commit,
    Other,
}

/// One entry of a listed tree: a relative path, an opaque content or commit
/// identifier, and a mode.
pub struct RawEntry {
    pub path: Vec<u8>,
    pub id: Vec<u8>,
    pub mode: EntryMode,
}

/// The mathematical value of a `RawEntry`.
pub struct RawEntryV {
    pub path: Seq<u8>,
    pub id: Seq<u8>,
    pub mode: EntryMode,
}

impl View for RawEntry {
    type V = RawEntryV;

    open spec fn view(&self) -> RawEntryV {
        RawEntryV { path: self.path@, id: self.id@, mode: self.mode }
    }
}

/// One regular file of a unit, with its classification outcome once made:
/// absent until classified, or absent forever if no language matched.
pub struct PathEntry {
    pub path: Vec<u8>,
    pub id: Vec<u8>,
    pub result: Option<Entry>,
}

/// The mathematical value of a `PathEntry`.
pub struct PathEntryV {
    pub path: Seq<u8>,
    pub id: Seq<u8>,
    pub result: Option<EntryV>,
}

impl View for PathEntry {
    type V = PathEntryV;

    open spec fn view(&self) -> PathEntryV {
        PathEntryV { path: self.path@, id: self.id@, result: opt_entry_view(self.result) }
    }
}

/// A sub-repository discovered in a listing: its relative path and the
/// commit id recorded for it.
pub struct SubmoduleRef {
    pub path: Vec<u8>,
    pub commit: Vec<u8>,
}

/// The mathematical value of a `SubmoduleRef`.
pub struct SubmoduleRefV {
    pub path: Seq<u8>,
    pub commit: Seq<u8>,
}

impl View for SubmoduleRef {
    type V = SubmoduleRefV;

    open spec fn view(&self) -> SubmoduleRefV {
        SubmoduleRefV { path: self.path@, commit: self.commit@ }
    }
}

/// The outcome of trying to open one sub-repository and resolve its recorded
/// commit to a tree: `None` where it is detached, absent or corrupt.
pub struct ResolvedSubmodule {
    pub path: Vec<u8>,
    pub tree: Option<Vec<u8>>,
}

/// The mathematical value of a `ResolvedSubmodule`.
pub struct ResolvedSubmoduleV {
    pub path: Seq<u8>,
    pub tree: Option<Seq<u8>>,
}

impl View for ResolvedSubmodule {
    type V = ResolvedSubmoduleV;

    open spec fn view(&self) -> ResolvedSubmoduleV {
        ResolvedSubmoduleV {
            path: self.path@,
            tree: match self.tree {
                Some(ref t) => Some(t@),
                None => None,
            },
        }
    }
}

/// One tree snapshot to process: an absolute root prefix and a tree id.
pub struct TraversalUnit {
    pub root: Vec<u8>,
    pub tree: Vec<u8>,
}

/// The mathematical value of a `TraversalUnit`.
pub struct TraversalUnitV {
    pub root: Seq<u8>,
    pub tree: Seq<u8>,
}

impl View for TraversalUnit {
    type V = TraversalUnitV;

    open spec fn view(&self) -> TraversalUnitV {
        TraversalUnitV { root: self.root@, tree: self.tree@ }
    }
}

/// The entry list and root prefix of one traversal unit.
pub struct ResultSet {
    pub root: Vec<u8>,
    pub entries: Vec<PathEntry>,
}

/// The mathematical value of a `ResultSet`.
pub struct ResultSetV {
    pub root: Seq<u8>,
    pub entries: Seq<PathEntryV>,
}

impl View for ResultSet {
    type V = ResultSetV;

    open spec fn view(&self) -> ResultSetV {
        ResultSetV { root: self.root@, entries: self.entries@.map_values(|e: PathEntry| e@) }
    }
}

/// The mathematical values of a listing.
pub open spec fn raw_views(s: Seq<RawEntry>) -> Seq<RawEntryV> {
    s.map_values(|e: RawEntry| e@)
}

/// A regular file: anything else is dropped from the entry list.
pub open spec fn is_regular(m: EntryMode) -> bool {
    m == EntryMode::File || m == EntryMode::FileExecutable
}

/// The regular files of a listing, in listing order, none yet classified.
pub open spec fn file_entries(listing: Seq<RawEntryV>) -> Seq<PathEntryV>
    decreases listing.len(),
{
    if listing.len() == 0 {
        Seq::empty()
    } else {
        let prev = file_entries(listing.drop_last());
        let e = listing.last();
        if is_regular(e.mode) {
            prev.push(PathEntryV { path: e.path, id: e.id, result: None })
        } else {
            prev
        }
    }
}

/// The sub-repositories of a listing (commit-mode entries), in listing order.
pub open spec fn submodule_refs(listing: Seq<RawEntryV>) -> Seq<SubmoduleRefV>
    decreases listing.len(),
{
    if listing.len() == 0 {
        Seq::empty()
    } else {
        let prev = submodule_refs(listing.drop_last());
        let e = listing.last();
        if e.mode == EntryMode::Commit {
            prev.push(SubmoduleRefV { path: e.path, commit: e.id })
        } else {
            prev
        }
    }
}

/// The child units of a unit: one per sub-repository that resolved to a
/// tree, its root the parent root joined with its relative path; one that
/// could not be opened yields no unit.
pub open spec fn child_units_spec(parent: Seq<u8>, resolved: Seq<ResolvedSubmoduleV>) -> Seq<
    TraversalUnitV,
>
    decreases resolved.len(),
{
    if resolved.len() == 0 {
        Seq::empty()
    } else {
        let prev = child_units_spec(parent, resolved.drop_last());
        let s = resolved.last();
        match s.tree {
            Some(t) => prev.push(TraversalUnitV { root: join(parent, s.path), tree: t }),
            None => prev,
        }
    }
}

/// Splits a listed tree into the unit's regular-file entry list and the side
/// list of sub-repositories it mounts.
pub fn from_index(root: Vec<u8>, listing: &Vec<RawEntry>) -> (r: (ResultSet, Vec<SubmoduleRef>))
    ensures
        r.0@.root == root@,
        r.0@.entries == file_entries(raw_views(listing@)),
        r.1@.map_values(|s: SubmoduleRef| s@) == submodule_refs(raw_views(listing@)),
{
    let ghost lv = raw_views(listing@);
    let mut entries: Vec<PathEntry> = Vec::new();
    let mut submodules: Vec<SubmoduleRef> = Vec::new();
    let mut i: usize = 0;
    while i < listing.len()
        invariant
            i <= listing.len(),
            lv == raw_views(listing@),
            lv.len() == listing.len(),
            forall|j: int| 0 <= j < lv.len() ==> lv[j] == listing@[j]@,
            entries@.map_values(|e: PathEntry| e@) == file_entries(lv.take(i as int)),
            submodules@.map_values(|s: SubmoduleRef| s@) == submodule_refs(lv.take(i as int)),
        decreases listing.len() - i,
    {
        proof {
            assert(lv.take(i + 1).drop_last() =~= lv.take(i as int));
            assert(lv.take(i + 1).last() == lv[i as int]);
        }
        match listing[i].mode {
            EntryMode::File | EntryMode::FileExecutable => {
                let e = PathEntry {
                    path: copy_bytes(&listing[i].path),
                    id: copy_bytes(&listing[i].id),
                    result: None,
                };
                entries.push(e);
                proof {
                    assert(entries@.map_values(|e: PathEntry| e@) =~= file_entries(lv.take(i + 1)));
                    assert(submodules@.map_values(|s: SubmoduleRef| s@) =~= submodule_refs(
                        lv.take(i + 1),
                    ));
                }
            },
            EntryMode::Commit => {
                let s = SubmoduleRef {
                    path: copy_bytes(&listing[i].path),
                    commit: copy_bytes(&listing[i].id),
                };
                submodules.push(s);
                proof {
                    assert(entries@.map_values(|e: PathEntry| e@) =~= file_entries(lv.take(i + 1)));
                    assert(submodules@.map_values(|s: SubmoduleRef| s@) =~= submodule_refs(
                        lv.take(i + 1),
                    ));
                }
            },
            _ => {
                proof {
                    assert(entries@.map_values(|e: PathEntry| e@) =~= file_entries(lv.take(i + 1)));
                    assert(submodules@.map_values(|s: SubmoduleRef| s@) =~= submodule_refs(
                        lv.take(i + 1),
                    ));
                }
            },
        }
        i += 1;
    }
    proof {
        assert(lv.take(listing.len() as int) =~= lv);
    }
    (ResultSet { root, entries }, submodules)
}

/// Builds the child units of a unit from the resolution outcomes of its
/// sub-repositories, skipping each one that could not be opened.
pub fn child_units(parent_root: &Vec<u8>, resolved: &Vec<ResolvedSubmodule>) -> (r: Vec<
    TraversalUnit,
>)
    ensures
        r@.map_values(|u: TraversalUnit| u@) == child_units_spec(
            parent_root@,
            resolved@.map_values(|s: ResolvedSubmodule| s@),
        ),
{
    let ghost rv = resolved@.map_values(|s: ResolvedSubmodule| s@);
    let mut units: Vec<TraversalUnit> = Vec::new();
    let mut i: usize = 0;
    while i < resolved.len()
        invariant
            i <= resolved.len(),
            rv == resolved@.map_values(|s: ResolvedSubmodule| s@),
            rv.len() == resolved.len(),
            forall|j: int| 0 <= j < rv.len() ==> rv[j] == resolved@[j]@,
            units@.map_values(|u: TraversalUnit| u@) == child_units_spec(
                parent_root@,
                rv.take(i as int),
            ),
        decreases resolved.len() - i,
    {
        proof {
            assert(rv.take(i + 1).drop_last() =~= rv.take(i as int));
            assert(rv.take(i + 1).last() == rv[i as int]);
        }
        match resolved[i].tree {
            Some(ref t) => {
                let u = TraversalUnit {
                    root: join_path(parent_root, &resolved[i].path),
                    tree: copy_bytes(t),
                };
                units.push(u);
                proof {
                    assert(units@.map_values(|u: TraversalUnit| u@) =~= child_units_spec(
                        parent_root@,
                        rv.take(i + 1),
                    ));
                }
            },
            None => {
                proof {
                    assert(units@.map_values(|u: TraversalUnit| u@) =~= child_units_spec(
                        parent_root@,
                        rv.take(i + 1),
                    ));
                }
            },
        }
        i += 1;
    }
    proof {
        assert(rv.take(resolved.len() as int) =~= rv);
    }
    units
}

impl ResultSet {
    /// Classifies the entry in slot `i` from its contents and overrides,
    /// writing the outcome back into that slot and touching nothing else, so
    /// the entry list keeps its original listing order however the slots are
    /// scheduled.
    pub fn classify_at(
        &mut self,
        i: usize,
        catalog: &Catalog,
        contents: &Vec<u8>,
        overrides: &Overrides,
        is_submodule: bool,
    )
        requires
            i < old(self)@.entries.len(),
        ensures
            final(self)@.root == old(self)@.root,
            final(self)@.entries.len() == old(self)@.entries.len(),
            final(self)@.entries[i as int].path == old(self)@.entries[i as int].path,
            final(self)@.entries[i as int].id == old(self)@.entries[i as int].id,
            final(self)@.entries[i as int].result == classify_spec(
                catalog@,
                old(self)@.entries[i as int].path,
                contents@,
                overrides@,
                is_submodule,
            ),
            forall|j: int|
                0 <= j < old(self)@.entries.len() && j != i ==> final(self)@.entries[j] == old(
                    self,
                )@.entries[j],
    {
        let r = classify(catalog, &self.entries[i].path, contents, overrides, is_submodule);
        let e = PathEntry {
            path: copy_bytes(&self.entries[i].path),
            id: copy_bytes(&self.entries[i].id),
            result: r,
        };
        self.entries.set(i, e);
        proof {
            assert(forall|j: int|
                0 <= j < self@.entries.len() && j != i ==> self@.entries[j] == old(
                    self,
                )@.entries[j]);
        }
    }

    /// Classifies every entry of the unit, slot by slot, from parallel lists
    /// of blob contents and decoded overrides, one of each per entry.
    pub fn classify_unit(
        &mut self,
        catalog: &Catalog,
        contents: &Vec<Vec<u8>>,
        overrides: &Vec<Overrides>,
        is_submodule: bool,
    )
        requires
            contents@.len() == old(self)@.entries.len(),
            overrides@.len() == old(self)@.entries.len(),
        ensures
            final(self)@.root == old(self)@.root,
            final(self)@.entries.len() == old(self)@.entries.len(),
            forall|j: int|
                0 <= j < old(self)@.entries.len() ==> final(self)@.entries[j].path == old(
                    self,
                )@.entries[j].path && final(self)@.entries[j].id == old(self)@.entries[j].id
                    && final(self)@.entries[j].result == classify_spec(
                    catalog@,
                    old(self)@.entries[j].path,
                    contents@[j]@,
                    overrides@[j]@,
                    is_submodule,
                ),
    {
        let n = self.entries.len();
        let mut i: usize = 0;
        while i < n
            invariant
                i <= n,
                n == old(self)@.entries.len(),
                contents@.len() == n,
                overrides@.len() == n,
                self@.root == old(self)@.root,
                self@.entries.len() == n,
                forall|j: int|
                    i <= j < n ==> self@.entries[j] == old(self)@.entries[j],
                forall|j: int|
                    0 <= j < i ==> self@.entries[j].path == old(self)@.entries[j].path
                        && self@.entries[j].id == old(self)@.entries[j].id
                        && self@.entries[j].result == classify_spec(
                        catalog@,
                        old(self)@.entries[j].path,
                        contents@[j]@,
                        overrides@[j]@,
                        is_submodule,
                    ),
            decreases n - i,
        {
            self.classify_at(i, catalog, &contents[i], &overrides[i], is_submodule);
            i += 1;
        }
    }
}

} // verus!
