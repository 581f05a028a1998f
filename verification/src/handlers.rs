//! Pre-computed classification responses: a language with explicit facet
//! overrides, as a caller-supplied classification source hands them over.

use vstd::prelude::*;

use crate::language::Language;

verus! {

/// One response: the language to assign and, per facet, an explicit override
/// or none.
#[derive(PartialEq, Eq, Hash)]
pub struct ResponseEntry {
    pub language: Language,
    pub documentation_override: Option<bool>,
    pub generated_override: Option<bool>,
    pub vendored_override: Option<bool>,
}

} // verus!
