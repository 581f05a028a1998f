//! Per-language byte totals, in first-seen order.
//!
//! `summary_with` reduces the classified entries of an `Analysis` to a
//! mapping from language to total bytes, skipping entries that are not
//! detectable unless asked to include them; equal languages accumulate by
//! summation, never overwrite. The totals live in an insertion-ordered map
//! and the languages themselves in a parallel list in the same order.

use vstd::prelude::*;

use indexmap::IndexMap;

use crate::analysis::analysis_entries;
use crate::analysis::pair_views;
use crate::analysis::Analysis;
use crate::classify::EntryV;
use crate::language::Language;
use crate::language::LanguageV;
use crate::summary_map::find_key;
use crate::summary_map::map_pairs;
use crate::summary_map::summary_map_get;
use crate::summary_map::summary_map_get_index;
use crate::summary_map::summary_map_insert;
use crate::summary_map::summary_map_new;
use crate::bytes::copy_bytes;

verus! {

/// Options for a summary: `all` includes entries that are not detectable.
pub struct SummaryOpts {
    pub all: bool,
}

impl Default for SummaryOpts {
    /// Only detectable entries count by default.
    fn default() -> (r: SummaryOpts)
        ensures
            !r.all,
    {
        SummaryOpts { all: false }
    }
}

/// An entry counts toward the summary.
pub open spec fn included(e: EntryV, all: bool) -> bool {
    all || e.detectable
}

/// The position of the pair holding a language with this name, if one does.
pub open spec fn find_lang(s: Seq<(LanguageV, nat)>, name: Seq<u8>) -> Option<int>
    decreases s.len(),
{
    if s.len() == 0 {
        None
    } else {
        let prev = find_lang(s.drop_last(), name);
        if prev is Some {
            prev
        } else if s.last().0.name == name {
            Some(s.len() - 1)
        } else {
            None
        }
    }
}

/// Adds one entry's size to its language's pair, or appends a new pair last.
pub open spec fn add_entry(s: Seq<(LanguageV, nat)>, e: EntryV) -> Seq<(LanguageV, nat)> {
    match find_lang(s, e.language.name) {
        Some(i) => s.update(i, (s[i].0, (s[i].1 + e.size) as nat)),
        None => s.push((e.language, e.size)),
    }
}

/// The summary of a sequence of entries: per-language totals in first-seen
/// order, over the included entries.
pub open spec fn summarize(entries: Seq<EntryV>, all: bool) -> Seq<(LanguageV, nat)>
    decreases entries.len(),
{
    if entries.len() == 0 {
        Seq::empty()
    } else {
        let prev = summarize(entries.drop_last(), all);
        if included(entries.last(), all) {
            add_entry(prev, entries.last())
        } else {
            prev
        }
    }
}

/// The sum of the sizes of all entries.
pub open spec fn size_sum(entries: Seq<EntryV>) -> nat
    decreases entries.len(),
{
    if entries.len() == 0 {
        0
    } else {
        (size_sum(entries.drop_last()) + entries.last().size) as nat
    }
}

/// The sum of the sizes of the included entries whose language has `name`.
pub open spec fn lang_total(entries: Seq<EntryV>, name: Seq<u8>, all: bool) -> nat
    decreases entries.len(),
{
    if entries.len() == 0 {
        0
    } else {
        (lang_total(entries.drop_last(), name, all) + if included(entries.last(), all)
            && entries.last().language.name == name {
            entries.last().size
        } else {
            0nat
        }) as nat
    }
}

/// Some included entry's language has `name`.
pub open spec fn has_lang(entries: Seq<EntryV>, name: Seq<u8>, all: bool) -> bool {
    exists|i: int|
        0 <= i < entries.len() && included(entries[i], all) && entries[i].language.name == name
}

proof fn lemma_find_lang_bounds(s: Seq<(LanguageV, nat)>, name: Seq<u8>)
    ensures
        match find_lang(s, name) {
            Some(i) => 0 <= i < s.len() && s[i].0.name == name,
            None => forall|j: int| 0 <= j < s.len() ==> s[j].0.name != name,
        },
    decreases s.len(),
{
    if s.len() > 0 {
        lemma_find_lang_bounds(s.drop_last(), name);
        assert(forall|j: int| 0 <= j < s.len() - 1 ==> s.drop_last()[j] == s[j]);
    }
}

proof fn lemma_find_lang_update(s: Seq<(LanguageV, nat)>, i: int, v: nat, name: Seq<u8>)
    requires
        0 <= i < s.len(),
    ensures
        find_lang(s.update(i, (s[i].0, v)), name) == find_lang(s, name),
    decreases s.len(),
{
    let t = s.update(i, (s[i].0, v));
    if i == s.len() - 1 {
        assert(t.drop_last() =~= s.drop_last());
        assert(t.last().0 == s.last().0);
    } else {
        assert(t.drop_last() =~= s.drop_last().update(i, (s.drop_last()[i].0, v)));
        lemma_find_lang_update(s.drop_last(), i, v, name);
        assert(t.last() == s.last());
    }
}

proof fn lemma_find_lang_push(s: Seq<(LanguageV, nat)>, p: (LanguageV, nat), name: Seq<u8>)
    ensures
        find_lang(s.push(p), name) == (if find_lang(s, name) is Some {
            find_lang(s, name)
        } else if p.0.name == name {
            Some(s.len() as int)
        } else {
            None::<int>
        }),
{
    assert(s.push(p).drop_last() =~= s);
    assert(s.push(p).last() == p);
}

/// Positionwise-equal key sequences make the two finds agree.
proof fn lemma_find_correspond(m: Seq<(Seq<u8>, usize)>, s: Seq<(LanguageV, nat)>, name: Seq<u8>)
    requires
        m.len() == s.len(),
        forall|j: int| 0 <= j < m.len() ==> m[j].0 == s[j].0.name,
    ensures
        find_key(m, name) == find_lang(s, name),
    decreases m.len(),
{
    if m.len() > 0 {
        assert(forall|j: int| 0 <= j < m.len() - 1 ==> m.drop_last()[j] == m[j]);
        assert(forall|j: int| 0 <= j < s.len() - 1 ==> s.drop_last()[j] == s[j]);
        assert(m.last().0 == s.last().0.name);
        lemma_find_correspond(m.drop_last(), s.drop_last(), name);
    }
}

proof fn lemma_size_sum_take(entries: Seq<EntryV>, i: int)
    requires
        0 <= i <= entries.len(),
    ensures
        size_sum(entries.take(i)) <= size_sum(entries),
    decreases entries.len(),
{
    if i == entries.len() {
        assert(entries.take(i) =~= entries);
    } else {
        assert(entries.drop_last().take(i) =~= entries.take(i));
        lemma_size_sum_take(entries.drop_last(), i);
    }
}

proof fn lemma_lang_total_le_size_sum(entries: Seq<EntryV>, name: Seq<u8>, all: bool)
    ensures
        lang_total(entries, name, all) <= size_sum(entries),
    decreases entries.len(),
{
    if entries.len() > 0 {
        lemma_lang_total_le_size_sum(entries.drop_last(), name, all);
    }
}

/// Summation law: the total recorded for a language name is exactly the sum
/// of the sizes of the included entries of that language — every entry when
/// `all` is set, only the detectable ones otherwise — and a name is present
/// exactly when some included entry has it.
pub proof fn lemma_summary_totals(entries: Seq<EntryV>, all: bool, name: Seq<u8>)
    ensures
        match find_lang(summarize(entries, all), name) {
            Some(i) => 0 <= i < summarize(entries, all).len() && summarize(entries, all)[i].0.name
                == name && summarize(entries, all)[i].1 == lang_total(entries, name, all)
                && has_lang(entries, name, all),
            None => !has_lang(entries, name, all) && lang_total(entries, name, all) == 0,
        },
    decreases entries.len(),
{
    if entries.len() > 0 {
        let pre = entries.drop_last();
        let e = entries.last();
        let s = summarize(pre, all);
        lemma_summary_totals(pre, all, name);
        lemma_find_lang_bounds(s, name);
        assert(forall|j: int| 0 <= j < pre.len() ==> entries[j] == pre[j]);
        if included(e, all) {
            lemma_find_lang_bounds(s, e.language.name);
            match find_lang(s, e.language.name) {
                Some(k) => {
                    lemma_find_lang_update(s, k, (s[k].1 + e.size) as nat, name);
                    if e.language.name == name {
                        assert(included(entries[entries.len() - 1], all) && entries[entries.len()
                            - 1].language.name == name);
                        assert(has_lang(entries, name, all));
                    } else {
                        match find_lang(s, name) {
                            Some(i2) => {
                                assert(i2 != k);
                                assert(summarize(entries, all)[i2] == s[i2]);
                                assert(has_lang(pre, name, all));
                                assert(has_lang(entries, name, all));
                            },
                            None => {
                                assert(!has_lang(entries, name, all));
                            },
                        }
                    }
                },
                None => {
                    lemma_find_lang_push(s, (e.language, e.size), name);
                    if e.language.name == name {
                        assert(find_lang(s, name) is None);
                        assert(summarize(entries, all)[s.len() as int].1 == e.size);
                        assert(included(entries[entries.len() - 1], all) && entries[entries.len()
                            - 1].language.name == name);
                        assert(has_lang(entries, name, all));
                    } else {
                        match find_lang(s, name) {
                            Some(i2) => {
                                assert(summarize(entries, all)[i2] == s[i2]);
                                assert(has_lang(pre, name, all));
                                assert(has_lang(entries, name, all));
                            },
                            None => {
                                assert(!has_lang(entries, name, all));
                            },
                        }
                    }
                },
            }
        } else {
            assert(summarize(entries, all) == s);
            match find_lang(s, name) {
                Some(i2) => {
                    assert(has_lang(pre, name, all));
                    assert(has_lang(entries, name, all));
                },
                None => {
                    assert(!has_lang(entries, name, all));
                },
            }
        }
    }
}

/// The per-language totals of a run: an insertion-ordered map from language
/// name to total bytes, with the languages themselves in the same order.
pub struct Summary {
    totals: IndexMap<Vec<u8>, usize>,
    languages: Vec<Language>,
}

impl Summary {
    /// The map's keys are exactly the languages' names, in the same order.
    pub closed spec fn wf(&self) -> bool {
        map_pairs(self.totals).len() == self.languages@.len() && (forall|i: int|
            0 <= i < self.languages@.len() ==> map_pairs(self.totals)[i].0
                == self.languages@[i]@.name)
    }
}

impl View for Summary {
    type V = Seq<(LanguageV, nat)>;

    closed spec fn view(&self) -> Seq<(LanguageV, nat)> {
        Seq::new(
            self.languages@.len() as nat,
            |i: int| (self.languages@[i]@, map_pairs(self.totals)[i].1 as nat),
        )
    }
}

impl Summary {
    /// How many languages the summary holds.
    pub fn len(&self) -> (r: usize)
        ensures
            r == self@.len(),
    {
        self.languages.len()
    }

    /// The language and total at a position, in first-seen order.
    pub fn get(&self, i: usize) -> (r: Option<(Language, usize)>)
        requires
            self.wf(),
        ensures
            i < self@.len() ==> (match r {
                Some(p) => p.0@ == self@[i as int].0 && p.1 as nat == self@[i as int].1,
                None => false,
            }),
            i >= self@.len() ==> r is None,
    {
        if i >= self.languages.len() {
            return None;
        }
        match summary_map_get_index(&self.totals, i) {
            Some(p) => Some((self.languages[i].duplicate(), p.1)),
            None => None,
        }
    }

    /// The total bytes recorded for a language name, if it has a pair.
    pub fn total_for(&self, name: &Vec<u8>) -> (r: Option<usize>)
        requires
            self.wf(),
        ensures
            match find_lang(self@, name@) {
                Some(i) => (match r {
                    Some(v) => v as nat == self@[i].1,
                    None => false,
                }),
                None => r is None,
            },
    {
        proof {
            lemma_find_correspond(map_pairs(self.totals), self@, name@);
            lemma_find_lang_bounds(self@, name@);
        }
        summary_map_get(&self.totals, name)
    }
}

impl Analysis {
    /// Summarizes the analysis by language and size; `opts.all` includes the
    /// entries that are not detectable.
    pub fn summary_with(&self, opts: SummaryOpts) -> (r: Summary)
        requires
            size_sum(analysis_entries(self@)) <= usize::MAX,
        ensures
            r.wf(),
            r@ == summarize(analysis_entries(self@), opts.all),
    {
        let items = self.pairs();
        let ghost entries = analysis_entries(self@);
        proof {
            assert(entries.len() == items@.len());
            assert(forall|j: int|
                0 <= j < entries.len() ==> entries[j] == pair_views(items@)[j].1);
            assert(forall|j: int| 0 <= j < entries.len() ==> entries[j] == items@[j].1@);
        }
        let mut totals = summary_map_new();
        let mut languages: Vec<Language> = Vec::new();
        let mut i: usize = 0;
        while i < items.len()
            invariant
                i <= items.len(),
                entries == analysis_entries(self@),
                entries.len() == items@.len(),
                forall|j: int| 0 <= j < entries.len() ==> entries[j] == items@[j].1@,
                size_sum(entries) <= usize::MAX,
                map_pairs(totals).len() == summarize(entries.take(i as int), opts.all).len(),
                languages@.len() == summarize(entries.take(i as int), opts.all).len(),
                forall|j: int|
                    0 <= j < languages@.len() ==> map_pairs(totals)[j].0 == summarize(
                        entries.take(i as int),
                        opts.all,
                    )[j].0.name && map_pairs(totals)[j].1 as nat == summarize(
                        entries.take(i as int),
                        opts.all,
                    )[j].1 && languages@[j]@ == summarize(entries.take(i as int), opts.all)[j].0,
            decreases items.len() - i,
        {
            let ghost s = summarize(entries.take(i as int), opts.all);
            proof {
                assert(entries.take(i + 1).drop_last() =~= entries.take(i as int));
                assert(entries.take(i + 1).last() == entries[i as int]);
            }
            let e = &items[i].1;
            if opts.all || e.detectable {
                let name = copy_bytes(&e.language.name);
                let ghost nm = name@;
                proof {
                    assert(nm == entries[i as int].language.name);
                    lemma_find_correspond(map_pairs(totals), s, nm);
                    lemma_find_lang_bounds(s, nm);
                    lemma_summary_totals(entries.take(i as int), opts.all, nm);
                }
                let existing = summary_map_get(&totals, &name);
                match existing {
                    Some(t) => {
                        let ghost k = find_lang(s, nm)->Some_0;
                        proof {
                            assert(find_lang(s, nm) is Some);
                            assert(t as nat == s[k].1);
                            assert(s[k].1 == lang_total(entries.take(i as int), nm, opts.all));
                            assert(lang_total(entries.take(i + 1), nm, opts.all) == lang_total(
                                entries.take(i as int),
                                nm,
                                opts.all,
                            ) + entries[i as int].size);
                            lemma_lang_total_le_size_sum(entries.take(i + 1), nm, opts.all);
                            lemma_size_sum_take(entries, i + 1);
                            assert(t + e.size <= usize::MAX);
                        }
                        let total = t + e.size;
                        let ghost prev_pairs = map_pairs(totals);
                        summary_map_insert(&mut totals, name, total);
                        proof {
                            assert(map_pairs(totals) == prev_pairs.update(k, (nm, total as usize)));
                            let s2 = summarize(entries.take(i + 1), opts.all);
                            assert(s2 == s.update(k, (s[k].0, (s[k].1 + entries[i as int].size) as nat)));
                            assert(map_pairs(totals).len() == s2.len());
                            assert(forall|j: int|
                                0 <= j < languages@.len() && j != k ==> map_pairs(totals)[j]
                                    == prev_pairs[j] && s2[j] == s[j]);
                            assert(map_pairs(totals)[k].0 == s2[k].0.name);
                            assert(map_pairs(totals)[k].1 as nat == s2[k].1);
                            assert(forall|j: int| 0 <= j < languages@.len() ==> s2[j].0 == s[j].0);
                        }
                    },
                    None => {
                        proof {
                            assert(find_lang(s, nm) is None);
                        }
                        let lang = e.language.duplicate();
                        let total = e.size;
                        let ghost prev_pairs = map_pairs(totals);
                        let ghost prev_langs = languages@;
                        summary_map_insert(&mut totals, name, total);
                        languages.push(lang);
                        proof {
                            assert(map_pairs(totals) == prev_pairs.push((nm, total)));
                            let s2 = summarize(entries.take(i + 1), opts.all);
                            assert(s2 == s.push(
                                (entries[i as int].language, entries[i as int].size),
                            ));
                            assert(map_pairs(totals).len() == s2.len());
                            assert(languages@.len() == s2.len());
                            assert(forall|j: int|
                                0 <= j < prev_langs.len() ==> map_pairs(totals)[j] == prev_pairs[j]
                                    && s2[j] == s[j] && languages@[j] == prev_langs[j]);
                            assert(map_pairs(totals)[prev_langs.len() as int].0
                                == s2[prev_langs.len() as int].0.name);
                            assert(map_pairs(totals)[prev_langs.len() as int].1 as nat
                                == s2[prev_langs.len() as int].1);
                            assert(languages@[prev_langs.len() as int]@
                                == s2[prev_langs.len() as int].0);
                        }
                    },
                }
            } else {
                proof {
                    assert(summarize(entries.take(i + 1), opts.all) == s);
                }
            }
            i += 1;
        }
        proof {
            assert(entries.take(items@.len() as int) =~= entries);
        }
        let r = Summary { totals, languages };
        proof {
            assert(r@ =~~= summarize(entries, opts.all));
        }
        r
    }

    /// Summarizes the analysis by language and size, counting only the
    /// entries that are detectable.
    pub fn summary(&self) -> (r: Summary)
        requires
            size_sum(analysis_entries(self@)) <= usize::MAX,
        ensures
            r.wf(),
            r@ == summarize(analysis_entries(self@), false),
    {
        let opts = SummaryOpts::default();
        self.summary_with(opts)
    }
}

} // verus!
