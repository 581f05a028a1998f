//! Classifying one file: explicit overrides first, heuristics second.
//!
//! The precedence chain per facet: an explicit override from the path
//! attribute rules wins; otherwise the heuristic applies. A file whose
//! language cannot be determined is excluded (`None`), never an error.

use vstd::prelude::*;

use crate::bytes::basename;
use crate::bytes::basename_of;
use crate::bytes::contains_bytes;
use crate::bytes::contains_seq;
use crate::bytes::copy_bytes;
use crate::bytes::ends_with;
use crate::bytes::ends_with_bytes;
use crate::bytes::normalize_name;
use crate::bytes::normalized;
use crate::bytes::prefix_upto;
use crate::bytes::push_all;
use crate::bytes::starts_with;
use crate::bytes::starts_with_bytes;
use crate::bytes::SLASH;
use crate::language::lookup_name;
use crate::language::opt_lang_view;
use crate::language::pick;
use crate::language::Catalog;
use crate::language::CatalogV;
use crate::language::Category;
use crate::language::Language;
use crate::language::LanguageV;

verus! {

/// The explicit per-file overrides decoded from the path attribute rules:
/// for each recognized key, the highest-precedence explicit value or none.
pub struct Overrides {
    pub language: Option<Vec<u8>>,
    pub generated: Option<bool>,
    pub documentation: Option<bool>,
    pub vendored: Option<bool>,
    pub detectable: Option<bool>,
}

/// The mathematical value of an `Overrides`.
pub struct OverridesV {
    pub language: Option<Seq<u8>>,
    pub generated: Option<bool>,
    pub documentation: Option<bool>,
    pub vendored: Option<bool>,
    pub detectable: Option<bool>,
}

impl View for Overrides {
    type V = OverridesV;

    open spec fn view(&self) -> OverridesV {
        OverridesV {
            language: match self.language {
                Some(ref n) => Some(n@),
                None => None,
            },
            generated: self.generated,
            documentation: self.documentation,
            vendored: self.vendored,
            detectable: self.detectable,
        }
    }
}

impl Overrides {
    /// No explicit value for any key.
    pub fn none() -> (r: Overrides)
        ensures
            r@.language is None,
            r@.generated is None,
            r@.documentation is None,
            r@.vendored is None,
            r@.detectable is None,
    {
        Overrides {
            language: None,
            generated: None,
            documentation: None,
            vendored: None,
            detectable: None,
        }
    }
}

/// The classification outcome for one file.
pub struct Entry {
    pub language: Language,
    pub size: usize,
    pub detectable: bool,
    pub generated: bool,
    pub documentation: bool,
    pub vendored: bool,
}

/// The mathematical value of an `Entry`.
pub struct EntryV {
    pub language: LanguageV,
    pub size: nat,
    pub detectable: bool,
    pub generated: bool,
    pub documentation: bool,
    pub vendored: bool,
}

impl View for Entry {
    type V = EntryV;

    open spec fn view(&self) -> EntryV {
        EntryV {
            language: self.language@,
            size: self.size as nat,
            detectable: self.detectable,
            generated: self.generated,
            documentation: self.documentation,
            vendored: self.vendored,
        }
    }
}

impl Entry {
    /// A fresh copy with the same language, size and facets.
    pub fn duplicate(&self) -> (r: Entry)
        ensures
            r@ == self@,
    {
        Entry {
            language: self.language.duplicate(),
            size: self.size,
            detectable: self.detectable,
            generated: self.generated,
            documentation: self.documentation,
            vendored: self.vendored,
        }
    }
}

/// The mathematical value of an optional entry.
pub open spec fn opt_entry_view(r: Option<Entry>) -> Option<EntryV> {
    match r {
        Some(e) => Some(e@),
        None => None,
    }
}

/// The path ends with one of the suffixes.
pub open spec fn any_suffix(path: Seq<u8>, suffixes: Seq<Seq<u8>>) -> bool {
    exists|i: int| 0 <= i < suffixes.len() && ends_with(path, suffixes[i])
}

/// The basename starts with one of the prefixes.
pub open spec fn any_name_prefix(base: Seq<u8>, prefixes: Seq<Seq<u8>>) -> bool {
    exists|i: int| 0 <= i < prefixes.len() && starts_with(base, prefixes[i])
}

/// `dir` occurs as a leading or inner directory component of the path.
pub open spec fn has_component(path: Seq<u8>, dir: Seq<u8>) -> bool {
    starts_with(path, dir.push(SLASH)) || contains_seq(path, seq![SLASH] + dir.push(SLASH))
}

/// The path has one of the directory components.
pub open spec fn any_component(path: Seq<u8>, dirs: Seq<Seq<u8>>) -> bool {
    exists|i: int| 0 <= i < dirs.len() && has_component(path, dirs[i])
}

/// The heuristic for machine-generated files: a path suffix convention.
pub open spec fn heur_generated(cat: CatalogV, path: Seq<u8>) -> bool {
    any_suffix(path, cat.generated_suffixes)
}

/// The heuristic for documentation: a basename or a directory convention.
pub open spec fn heur_documentation(cat: CatalogV, path: Seq<u8>) -> bool {
    any_name_prefix(basename(path), cat.documentation_names) || any_component(
        path,
        cat.documentation_dirs,
    )
}

/// The heuristic for third-party code: a directory convention.
pub open spec fn heur_vendored(cat: CatalogV, path: Seq<u8>) -> bool {
    any_component(path, cat.vendored_dirs)
}

/// What classifying one file returns: the explicit language override is
/// looked up first (hyphens normalized to spaces); otherwise the heuristic
/// pick applies; a file without a language is excluded. Each boolean facet
/// takes its override when one is set, else its heuristic; a file of a
/// sub-repository counts as vendored by default; detectability defaults to
/// false for Data and Prose and otherwise to the absence of every facet.
pub open spec fn classify_spec(
    cat: CatalogV,
    path: Seq<u8>,
    contents: Seq<u8>,
    ov: OverridesV,
    is_submodule: bool,
) -> Option<EntryV> {
    let over = match ov.language {
        Some(n) => lookup_name(cat.defs, normalized(n)),
        None => None,
    };
    let lang = if over is Some {
        over
    } else {
        pick(cat.defs, basename(path), prefix_upto(contents, cat.read_limit))
    };
    match lang {
        None => None,
        Some(l) => {
            let generated = match ov.generated {
                Some(b) => b,
                None => heur_generated(cat, path),
            };
            let documentation = match ov.documentation {
                Some(b) => b,
                None => heur_documentation(cat, path),
            };
            let vendored = match ov.vendored {
                Some(b) => b,
                None => is_submodule || heur_vendored(cat, path),
            };
            let auto = match l.category {
                Category::Data => false,
                Category::Prose => false,
                _ => !(generated || documentation || vendored),
            };
            let detectable = match ov.detectable {
                Some(b) => b,
                None => auto,
            };
            Some(
                EntryV {
                    language: l,
                    size: contents.len(),
                    detectable,
                    generated,
                    documentation,
                    vendored,
                },
            )
        },
    }
}

/// Whether the path ends with one of the suffixes.
fn any_suffix_exec(path: &Vec<u8>, suffixes: &Vec<Vec<u8>>) -> (r: bool)
    ensures
        r == any_suffix(path@, crate::language::views_of(suffixes@)),
{
    let ghost sv = crate::language::views_of(suffixes@);
    let mut i: usize = 0;
    while i < suffixes.len()
        invariant
            i <= suffixes.len(),
            sv == crate::language::views_of(suffixes@),
            sv.len() == suffixes.len(),
            forall|j: int| 0 <= j < sv.len() ==> sv[j] == suffixes@[j]@,
            forall|j: int| 0 <= j < i ==> !ends_with(path@, sv[j]),
        decreases suffixes.len() - i,
    {
        if ends_with_bytes(path, &suffixes[i]) {
            proof {
                assert(ends_with(path@, sv[i as int]));
            }
            return true;
        }
        i += 1;
    }
    false
}

/// Whether the basename starts with one of the prefixes.
fn any_name_prefix_exec(base: &Vec<u8>, prefixes: &Vec<Vec<u8>>) -> (r: bool)
    ensures
        r == any_name_prefix(base@, crate::language::views_of(prefixes@)),
{
    let ghost pv = crate::language::views_of(prefixes@);
    let mut i: usize = 0;
    while i < prefixes.len()
        invariant
            i <= prefixes.len(),
            pv == crate::language::views_of(prefixes@),
            pv.len() == prefixes.len(),
            forall|j: int| 0 <= j < pv.len() ==> pv[j] == prefixes@[j]@,
            forall|j: int| 0 <= j < i ==> !starts_with(base@, pv[j]),
        decreases prefixes.len() - i,
    {
        if starts_with_bytes(base, &prefixes[i]) {
            proof {
                assert(starts_with(base@, pv[i as int]));
            }
            return true;
        }
        i += 1;
    }
    false
}

/// Whether `dir` occurs as a leading or inner directory component.
fn has_component_exec(path: &Vec<u8>, dir: &Vec<u8>) -> (r: bool)
    ensures
        r == has_component(path@, dir@),
{
    let mut lead: Vec<u8> = copy_bytes(dir);
    lead.push(SLASH);
    proof {
        assert(lead@ =~= dir@.push(SLASH));
    }
    if starts_with_bytes(path, &lead) {
        return true;
    }
    let mut inner: Vec<u8> = Vec::new();
    inner.push(SLASH);
    push_all(&mut inner, &lead);
    proof {
        assert(inner@ =~= seq![SLASH] + dir@.push(SLASH));
    }
    contains_bytes(path, &inner)
}

/// Whether the path has one of the directory components.
fn any_component_exec(path: &Vec<u8>, dirs: &Vec<Vec<u8>>) -> (r: bool)
    ensures
        r == any_component(path@, crate::language::views_of(dirs@)),
{
    let ghost dv = crate::language::views_of(dirs@);
    let mut i: usize = 0;
    while i < dirs.len()
        invariant
            i <= dirs.len(),
            dv == crate::language::views_of(dirs@),
            dv.len() == dirs.len(),
            forall|j: int| 0 <= j < dv.len() ==> dv[j] == dirs@[j]@,
            forall|j: int| 0 <= j < i ==> !has_component(path@, dv[j]),
        decreases dirs.len() - i,
    {
        if has_component_exec(path, &dirs[i]) {
            proof {
                assert(has_component(path@, dv[i as int]));
            }
            return true;
        }
        i += 1;
    }
    false
}

/// Classifies one file from its path, contents, explicit overrides, and
/// whether it lies in a sub-repository. Returns the entry, or `None` where no
/// language could be determined.
pub fn classify(
    catalog: &Catalog,
    path: &Vec<u8>,
    contents: &Vec<u8>,
    overrides: &Overrides,
    is_submodule: bool,
) -> (r: Option<Entry>)
    ensures
        opt_entry_view(r) == classify_spec(catalog@, path@, contents@, overrides@, is_submodule),
{
    let over: Option<Language> = match overrides.language {
        Some(ref n) => {
            let norm = normalize_name(n);
            catalog.lookup_by_name(&norm)
        },
        None => None,
    };
    let lang: Option<Language> = if over.is_some() {
        over
    } else {
        catalog.pick_language(path, contents)
    };
    let language = match lang {
        Some(l) => l,
        None => {
            return None;
        },
    };
    let generated = match overrides.generated {
        Some(b) => b,
        None => any_suffix_exec(path, &catalog.generated_suffixes),
    };
    let documentation = match overrides.documentation {
        Some(b) => b,
        None => {
            let base = basename_of(path);
            any_name_prefix_exec(&base, &catalog.documentation_names) || any_component_exec(
                path,
                &catalog.documentation_dirs,
            )
        },
    };
    let vendored = match overrides.vendored {
        Some(b) => b,
        None => is_submodule || any_component_exec(path, &catalog.vendored_dirs),
    };
    let auto = match language.category {
        Category::Data => false,
        Category::Prose => false,
        _ => !(generated || documentation || vendored),
    };
    let detectable = match overrides.detectable {
        Some(b) => b,
        None => auto,
    };
    Some(Entry { language, size: contents.len(), detectable, generated, documentation, vendored })
}

/// Detectability law: absent an explicit detectable override, an entry whose
/// language's category is Data or Prose is never detectable.
pub proof fn lemma_data_prose_not_detectable(
    cat: CatalogV,
    path: Seq<u8>,
    contents: Seq<u8>,
    ov: OverridesV,
    is_submodule: bool,
)
    requires
        ov.detectable is None,
        classify_spec(cat, path, contents, ov, is_submodule) is Some,
        classify_spec(cat, path, contents, ov, is_submodule)->Some_0.language.category
            == Category::Data || classify_spec(
            cat,
            path,
            contents,
            ov,
            is_submodule,
        )->Some_0.language.category == Category::Prose,
    ensures
        !classify_spec(cat, path, contents, ov, is_submodule)->Some_0.detectable,
{
}

/// Precedence law: an explicit override decides its facet, whatever the
/// heuristics would have said; an explicit language name that the catalog
/// knows decides the language.
pub proof fn lemma_override_precedence(
    cat: CatalogV,
    path: Seq<u8>,
    contents: Seq<u8>,
    ov: OverridesV,
    is_submodule: bool,
)
    requires
        classify_spec(cat, path, contents, ov, is_submodule) is Some,
    ensures
        ({
            let e = classify_spec(cat, path, contents, ov, is_submodule)->Some_0;
            &&& (ov.generated matches Some(b) ==> e.generated == b)
            &&& (ov.documentation matches Some(b) ==> e.documentation == b)
            &&& (ov.vendored matches Some(b) ==> e.vendored == b)
            &&& (ov.detectable matches Some(b) ==> e.detectable == b)
            &&& (ov.language is Some && lookup_name(cat.defs, normalized(ov.language->Some_0))
                is Some ==> e.language == lookup_name(
                cat.defs,
                normalized(ov.language->Some_0),
            )->Some_0)
        }),
{
}

/// Idempotence law: classification is a function of the catalog, the path,
/// the contents, the overrides and the sub-repository flag alone, so two runs
/// over the same revision and content yield identical entries.
pub proof fn lemma_classification_idempotent(
    r1: Option<EntryV>,
    r2: Option<EntryV>,
    cat: CatalogV,
    path: Seq<u8>,
    contents: Seq<u8>,
    ov: OverridesV,
    is_submodule: bool,
)
    requires
        r1 == classify_spec(cat, path, contents, ov, is_submodule),
        r2 == classify_spec(cat, path, contents, ov, is_submodule),
    ensures
        r1 == r2,
{
}

} // verus!
