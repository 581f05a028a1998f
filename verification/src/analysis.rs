//! The merged, read-only view over all accumulated result sets of one run:
//! every classified file as an (absolute path, entry) pair, in unit order and
//! within each unit in listing order. Files with no classification outcome
//! are skipped, and each path is the unit's root prefix joined with the
//! file's relative path.

use vstd::prelude::*;

use crate::bytes::copy_bytes;
use crate::bytes::join;
use crate::bytes::join_path;
use crate::classify::Entry;
use crate::classify::EntryV;
use crate::traverse::PathEntryV;
use crate::traverse::ResultSet;
use crate::traverse::ResultSetV;

verus! {

/// The result of analyzing a repository along with all of its
/// sub-repositories: the accumulated result sets, one per traversal unit.
pub struct Analysis {
    pub units: Vec<ResultSet>,
}

impl View for Analysis {
    type V = Seq<ResultSetV>;

    open spec fn view(&self) -> Seq<ResultSetV> {
        self.units@.map_values(|r: ResultSet| r@)
    }
}

/// The classified (absolute path, entry) pairs of one unit, in listing
/// order; entries without an outcome are skipped.
pub open spec fn unit_pairs(root: Seq<u8>, entries: Seq<PathEntryV>) -> Seq<(Seq<u8>, EntryV)>
    decreases entries.len(),
{
    if entries.len() == 0 {
        Seq::empty()
    } else {
        let prev = unit_pairs(root, entries.drop_last());
        match entries.last().result {
            Some(e) => prev.push((join(root, entries.last().path), e)),
            None => prev,
        }
    }
}

/// The classified (absolute path, entry) pairs of a whole run, unit by unit.
pub open spec fn analysis_pairs(units: Seq<ResultSetV>) -> Seq<(Seq<u8>, EntryV)>
    decreases units.len(),
{
    if units.len() == 0 {
        Seq::empty()
    } else {
        analysis_pairs(units.drop_last()) + unit_pairs(units.last().root, units.last().entries)
    }
}

/// The classified entries of a whole run, in the same order as the pairs.
pub open spec fn analysis_entries(units: Seq<ResultSetV>) -> Seq<EntryV> {
    analysis_pairs(units).map_values(|p: (Seq<u8>, EntryV)| p.1)
}

/// The mathematical values of a list of (path, entry) pairs.
pub open spec fn pair_views(s: Seq<(Vec<u8>, Entry)>) -> Seq<(Seq<u8>, EntryV)> {
    s.map_values(|p: (Vec<u8>, Entry)| (p.0@, p.1@))
}

/// A restartable cursor over the classified (path, entry) pairs of an
/// `Analysis`.
pub struct Iter {
    items: Vec<(Vec<u8>, Entry)>,
    pos: usize,
}

impl Iter {
    /// The pairs this cursor has not yet produced.
    pub closed spec fn remaining(&self) -> Seq<(Seq<u8>, EntryV)> {
        pair_views(self.items@).skip(self.pos as int)
    }

    /// The cursor's position never passes the end of its pairs.
    pub closed spec fn wf(&self) -> bool {
        self.pos <= self.items@.len()
    }

    /// The next classified (path, entry) pair, or `None` at the end.
    pub fn next(&mut self) -> (r: Option<(Vec<u8>, Entry)>)
        requires
            old(self).wf(),
        ensures
            final(self).wf(),
            old(self).remaining().len() == 0 ==> r is None && final(self).remaining() == old(
                self,
            ).remaining(),
            old(self).remaining().len() > 0 ==> (match r {
                Some(p) => (p.0@, p.1@) == old(self).remaining()[0] && final(self).remaining()
                    == old(self).remaining().skip(1),
                None => false,
            }),
    {
        if self.pos < self.items.len() {
            let out = (copy_bytes(&self.items[self.pos].0), self.items[self.pos].1.duplicate());
            proof {
                assert(pair_views(self.items@)[self.pos as int] == (
                    self.items@[self.pos as int].0@,
                    self.items@[self.pos as int].1@,
                ));
                assert(old(self).remaining()[0] == pair_views(self.items@)[self.pos as int]);
                assert(pair_views(self.items@).skip(self.pos + 1) =~= old(self).remaining().skip(
                    1,
                ));
            }
            self.pos = self.pos + 1;
            Some(out)
        } else {
            None
        }
    }
}

impl Analysis {
    /// Every classified file of the run as an (absolute path, entry) pair,
    /// in unit order and, within a unit, in listing order.
    pub fn pairs(&self) -> (r: Vec<(Vec<u8>, Entry)>)
        ensures
            pair_views(r@) == analysis_pairs(self@),
    {
        let ghost uv = self@;
        let mut items: Vec<(Vec<u8>, Entry)> = Vec::new();
        let mut i: usize = 0;
        while i < self.units.len()
            invariant
                i <= self.units.len(),
                uv == self@,
                uv.len() == self.units.len(),
                forall|j: int| 0 <= j < uv.len() ==> uv[j] == self.units@[j]@,
                pair_views(items@) == analysis_pairs(uv.take(i as int)),
            decreases self.units.len() - i,
        {
            let unit = &self.units[i];
            let ghost ev = uv[i as int].entries;
            let mut k: usize = 0;
            while k < unit.entries.len()
                invariant
                    k <= unit.entries.len(),
                    uv == self@,
                    uv.len() == self.units.len(),
                    i < uv.len(),
                    unit == &self.units@[i as int],
                    ev == uv[i as int].entries,
                    ev.len() == unit.entries.len(),
                    forall|j: int| 0 <= j < ev.len() ==> ev[j] == unit.entries@[j]@,
                    uv[i as int].root == unit.root@,
                    pair_views(items@) == analysis_pairs(uv.take(i as int)) + unit_pairs(
                        uv[i as int].root,
                        ev.take(k as int),
                    ),
                decreases unit.entries.len() - k,
            {
                proof {
                    assert(ev.take(k + 1).drop_last() =~= ev.take(k as int));
                    assert(ev.take(k + 1).last() == ev[k as int]);
                }
                match unit.entries[k].result {
                    Some(ref e) => {
                        let p = (join_path(&unit.root, &unit.entries[k].path), e.duplicate());
                        let ghost items_prev = items@;
                        let ghost pv = (p.0@, p.1@);
                        items.push(p);
                        proof {
                            assert(ev[k as int].result == Some(e@));
                            assert(pv == (join(uv[i as int].root, ev[k as int].path), e@));
                            assert(unit_pairs(uv[i as int].root, ev.take(k + 1)) == unit_pairs(
                                uv[i as int].root,
                                ev.take(k as int),
                            ).push((join(uv[i as int].root, ev[k as int].path), e@)));
                            assert(forall|j: int|
                                0 <= j < items_prev.len() ==> pair_views(items@)[j] == pair_views(
                                    items_prev,
                                )[j]);
                            assert(pair_views(items@) =~~= pair_views(items_prev).push(pv));
                            assert(pair_views(items@) =~~= analysis_pairs(uv.take(i as int))
                                + unit_pairs(uv[i as int].root, ev.take(k + 1)));
                        }
                    },
                    None => {
                        proof {
                            assert(pair_views(items@) =~~= analysis_pairs(uv.take(i as int))
                                + unit_pairs(uv[i as int].root, ev.take(k + 1)));
                        }
                    },
                }
                k += 1;
            }
            proof {
                assert(ev.take(unit.entries@.len() as int) =~= ev);
                assert(uv.take(i + 1).drop_last() =~= uv.take(i as int));
                assert(uv.take(i + 1).last() == uv[i as int]);
                assert(pair_views(items@) =~~= analysis_pairs(uv.take(i + 1)));
            }
            i += 1;
        }
        proof {
            assert(uv.take(self.units.len() as int) =~= uv);
        }
        items
    }

    /// A cursor over every classified file of the run.
    pub fn iter(&self) -> (r: Iter)
        ensures
            r.wf(),
            r.remaining() == analysis_pairs(self@),
    {
        let items = self.pairs();
        proof {
            assert(pair_views(items@).skip(0) =~~= pair_views(items@));
        }
        Iter { items, pos: 0 }
    }
}

} // verus!
