//! Languages, their coarse categories, and the catalog that maps file names
//! and content signatures to languages.
//!
//! The catalog is data handed in by the caller: each definition carries the
//! language itself, the basename suffixes and exact file names that select it
//! as a candidate, and the content markers that disambiguate it among several
//! candidates. The catalog also carries the path conventions that the facet
//! heuristics use and the byte limit on content inspection.

use vstd::prelude::*;

use crate::bytes::basename;
use crate::bytes::basename_of;
use crate::bytes::bytes_eq;
use crate::bytes::contains_bytes;
use crate::bytes::contains_seq;
use crate::bytes::copy_bytes;
use crate::bytes::ends_with;
use crate::bytes::ends_with_bytes;
use crate::bytes::prefix_upto;
use crate::bytes::take_prefix;

verus! {

/// The coarse classification of a language, governing default detectability.
#[derive(Clone, Copy, PartialEq, Eq, Structural, Hash)]
pub enum Category {
    Programming,
    Markup,
    Data,
    Query,
    Prose,
}

/// A language: a name and a category. Many entries may share one value.
#[derive(PartialEq, Eq, Hash)]
pub struct Language {
    pub name: Vec<u8>,
    pub category: Category,
}

/// The mathematical value of a `Language`.
pub struct LanguageV {
    pub name: Seq<u8>,
    pub category: Category,
}

impl View for Language {
    type V = LanguageV;

    open spec fn view(&self) -> LanguageV {
        LanguageV { name: self.name@, category: self.category }
    }
}

impl Language {
    /// A fresh copy with the same name and category.
    pub fn duplicate(&self) -> (r: Language)
        ensures
            r@ == self@,
    {
        Language { name: copy_bytes(&self.name), category: self.category }
    }
}

/// One catalog definition: a language together with what selects it.
pub struct LanguageDef {
    pub language: Language,
    /// Basename suffixes that make this language a candidate (".js").
    pub extensions: Vec<Vec<u8>>,
    /// Exact basenames that make this language a candidate ("Makefile").
    pub filenames: Vec<Vec<u8>>,
    /// Content signatures that pick this language among several candidates.
    pub markers: Vec<Vec<u8>>,
}

/// The mathematical value of a `LanguageDef`.
pub struct LanguageDefV {
    pub language: LanguageV,
    pub extensions: Seq<Seq<u8>>,
    pub filenames: Seq<Seq<u8>>,
    pub markers: Seq<Seq<u8>>,
}

/// The mathematical values of a list of byte strings.
pub open spec fn views_of(v: Seq<Vec<u8>>) -> Seq<Seq<u8>> {
    v.map_values(|b: Vec<u8>| b@)
}

impl View for LanguageDef {
    type V = LanguageDefV;

    open spec fn view(&self) -> LanguageDefV {
        LanguageDefV {
            language: self.language@,
            extensions: views_of(self.extensions@),
            filenames: views_of(self.filenames@),
            markers: views_of(self.markers@),
        }
    }
}

/// The language catalog and the path conventions of the facet heuristics.
pub struct Catalog {
    pub defs: Vec<LanguageDef>,
    /// Path suffixes of machine-generated files (".min.js").
    pub generated_suffixes: Vec<Vec<u8>>,
    /// Basename prefixes of documentation files ("README").
    pub documentation_names: Vec<Vec<u8>>,
    /// Directory components that hold documentation ("docs").
    pub documentation_dirs: Vec<Vec<u8>>,
    /// Directory components that hold third-party code ("vendor").
    pub vendored_dirs: Vec<Vec<u8>>,
    /// How many leading content bytes inspection may read.
    pub read_limit: usize,
}

/// The mathematical value of a `Catalog`.
pub struct CatalogV {
    pub defs: Seq<LanguageDefV>,
    pub generated_suffixes: Seq<Seq<u8>>,
    pub documentation_names: Seq<Seq<u8>>,
    pub documentation_dirs: Seq<Seq<u8>>,
    pub vendored_dirs: Seq<Seq<u8>>,
    pub read_limit: nat,
}

impl View for Catalog {
    type V = CatalogV;

    open spec fn view(&self) -> CatalogV {
        CatalogV {
            defs: self.defs@.map_values(|d: LanguageDef| d@),
            generated_suffixes: views_of(self.generated_suffixes@),
            documentation_names: views_of(self.documentation_names@),
            documentation_dirs: views_of(self.documentation_dirs@),
            vendored_dirs: views_of(self.vendored_dirs@),
            read_limit: self.read_limit as nat,
        }
    }
}

/// The mathematical value of an optional language.
pub open spec fn opt_lang_view(r: Option<Language>) -> Option<LanguageV> {
    match r {
        Some(l) => Some(l@),
        None => None,
    }
}

/// The language of the first definition whose name equals `name`, if any.
pub open spec fn lookup_name(defs: Seq<LanguageDefV>, name: Seq<u8>) -> Option<LanguageV>
    decreases defs.len(),
{
    if defs.len() == 0 {
        None
    } else {
        let prev = lookup_name(defs.drop_last(), name);
        if prev is Some {
            prev
        } else if defs.last().language.name == name {
            Some(defs.last().language)
        } else {
            None
        }
    }
}

/// The definition is a candidate for a file with this basename.
pub open spec fn matches_filename(d: LanguageDefV, base: Seq<u8>) -> bool {
    (exists|i: int| 0 <= i < d.filenames.len() && d.filenames[i] == base) || (exists|i: int|
        0 <= i < d.extensions.len() && ends_with(base, d.extensions[i]))
}

/// How many definitions are candidates for this basename.
pub open spec fn match_count(defs: Seq<LanguageDefV>, base: Seq<u8>) -> nat
    decreases defs.len(),
{
    if defs.len() == 0 {
        0
    } else {
        match_count(defs.drop_last(), base) + if matches_filename(defs.last(), base) {
            1nat
        } else {
            0
        }
    }
}

/// The language of the first candidate definition, if any.
pub open spec fn first_match(defs: Seq<LanguageDefV>, base: Seq<u8>) -> Option<LanguageV>
    decreases defs.len(),
{
    if defs.len() == 0 {
        None
    } else {
        let prev = first_match(defs.drop_last(), base);
        if prev is Some {
            prev
        } else if matches_filename(defs.last(), base) {
            Some(defs.last().language)
        } else {
            None
        }
    }
}

/// One of the definition's content markers occurs in the inspected window.
pub open spec fn marker_hit(d: LanguageDefV, window: Seq<u8>) -> bool {
    exists|i: int| 0 <= i < d.markers.len() && contains_seq(window, d.markers[i])
}

/// The language of the first candidate definition with a marker in the
/// inspected window, if any.
pub open spec fn first_marker_match(defs: Seq<LanguageDefV>, base: Seq<u8>, window: Seq<u8>) -> Option<
    LanguageV,
>
    decreases defs.len(),
{
    if defs.len() == 0 {
        None
    } else {
        let prev = first_marker_match(defs.drop_last(), base, window);
        if prev is Some {
            prev
        } else if matches_filename(defs.last(), base) && marker_hit(defs.last(), window) {
            Some(defs.last().language)
        } else {
            None
        }
    }
}

/// The heuristic language pick for a basename and an inspected content
/// window: a lone candidate wins outright; otherwise the first candidate
/// whose content marker occurs in the window.
pub open spec fn pick(defs: Seq<LanguageDefV>, base: Seq<u8>, window: Seq<u8>) -> Option<LanguageV> {
    if match_count(defs, base) == 1 {
        first_match(defs, base)
    } else {
        first_marker_match(defs, base, window)
    }
}

impl LanguageDef {
    /// Whether this definition is a candidate for a file with this basename.
    fn matches_base(&self, base: &Vec<u8>) -> (r: bool)
        ensures
            r == matches_filename(self@, base@),
    {
        let mut i: usize = 0;
        while i < self.filenames.len()
            invariant
                i <= self.filenames.len(),
                forall|j: int| 0 <= j < i ==> self@.filenames[j] != base@,
            decreases self.filenames.len() - i,
        {
            if bytes_eq(&self.filenames[i], base) {
                proof {
                    assert(self@.filenames[i as int] == base@);
                }
                return true;
            }
            i += 1;
        }
        let mut k: usize = 0;
        while k < self.extensions.len()
            invariant
                k <= self.extensions.len(),
                forall|j: int| 0 <= j < self@.filenames.len() ==> self@.filenames[j] != base@,
                forall|j: int| 0 <= j < k ==> !ends_with(base@, self@.extensions[j]),
            decreases self.extensions.len() - k,
        {
            if ends_with_bytes(base, &self.extensions[k]) {
                proof {
                    assert(ends_with(base@, self@.extensions[k as int]));
                }
                return true;
            }
            k += 1;
        }
        false
    }

    /// Whether one of this definition's markers occurs in the window.
    fn marker_in(&self, window: &Vec<u8>) -> (r: bool)
        ensures
            r == marker_hit(self@, window@),
    {
        let mut i: usize = 0;
        while i < self.markers.len()
            invariant
                i <= self.markers.len(),
                forall|j: int| 0 <= j < i ==> !contains_seq(window@, self@.markers[j]),
            decreases self.markers.len() - i,
        {
            if contains_bytes(window, &self.markers[i]) {
                proof {
                    assert(contains_seq(window@, self@.markers[i as int]));
                }
                return true;
            }
            i += 1;
        }
        false
    }
}

impl Catalog {
    /// Looks a language up by its exact (already normalized) name.
    pub fn lookup_by_name(&self, name: &Vec<u8>) -> (r: Option<Language>)
        ensures
            opt_lang_view(r) == lookup_name(self@.defs, name@),
    {
        let ghost dv = self@.defs;
        let mut found: Option<Language> = None;
        let mut i: usize = 0;
        while i < self.defs.len()
            invariant
                i <= self.defs.len(),
                dv == self@.defs,
                dv.len() == self.defs.len(),
                forall|j: int| 0 <= j < dv.len() ==> dv[j] == self.defs@[j]@,
                opt_lang_view(found) == lookup_name(dv.take(i as int), name@),
            decreases self.defs.len() - i,
        {
            proof {
                assert(dv.take(i + 1).drop_last() =~= dv.take(i as int));
                assert(dv.take(i + 1).last() == dv[i as int]);
            }
            if found.is_none() && bytes_eq(&self.defs[i].language.name, name) {
                found = Some(self.defs[i].language.duplicate());
            }
            i += 1;
        }
        proof {
            assert(dv.take(self.defs.len() as int) =~= dv);
        }
        found
    }

    /// The heuristic language pick for a path and its contents, inspecting at
    /// most `read_limit` leading bytes.
    pub fn pick_language(&self, path: &Vec<u8>, contents: &Vec<u8>) -> (r: Option<Language>)
        ensures
            opt_lang_view(r) == pick(
                self@.defs,
                basename(path@),
                prefix_upto(contents@, self@.read_limit),
            ),
    {
        let base = basename_of(path);
        let window = take_prefix(contents, self.read_limit);
        let ghost dv = self@.defs;
        let mut count: usize = 0;
        let mut first: Option<Language> = None;
        let mut first_marker: Option<Language> = None;
        let mut i: usize = 0;
        while i < self.defs.len()
            invariant
                i <= self.defs.len(),
                dv == self@.defs,
                dv.len() == self.defs.len(),
                forall|j: int| 0 <= j < dv.len() ==> dv[j] == self.defs@[j]@,
                base@ == basename(path@),
                window@ == prefix_upto(contents@, self@.read_limit),
                count == match_count(dv.take(i as int), base@),
                count <= i,
                opt_lang_view(first) == first_match(dv.take(i as int), base@),
                opt_lang_view(first_marker) == first_marker_match(
                    dv.take(i as int),
                    base@,
                    window@,
                ),
            decreases self.defs.len() - i,
        {
            proof {
                assert(dv.take(i + 1).drop_last() =~= dv.take(i as int));
                assert(dv.take(i + 1).last() == dv[i as int]);
            }
            if self.defs[i].matches_base(&base) {
                count += 1;
                if first.is_none() {
                    first = Some(self.defs[i].language.duplicate());
                }
                if first_marker.is_none() && self.defs[i].marker_in(&window) {
                    first_marker = Some(self.defs[i].language.duplicate());
                }
            }
            i += 1;
        }
        proof {
            assert(dv.take(self.defs.len() as int) =~= dv);
        }
        if count == 1 {
            first
        } else {
            first_marker
        }
    }
}

} // verus!
