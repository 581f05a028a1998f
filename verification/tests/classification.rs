use gengo::classify::{classify, Overrides};
use gengo::language::{Catalog, Category, Language, LanguageDef};

fn v(s: &[u8]) -> Vec<u8> {
    s.to_vec()
}

fn def(name: &[u8], category: Category, extensions: &[&[u8]], markers: &[&[u8]]) -> LanguageDef {
    LanguageDef {
        language: Language { name: v(name), category },
        extensions: extensions.iter().map(|e| v(e)).collect(),
        filenames: Vec::new(),
        markers: markers.iter().map(|m| v(m)).collect(),
    }
}

fn catalog() -> Catalog {
    Catalog {
        defs: vec![
            def(b"JavaScript", Category::Programming, &[b".js"], &[]),
            def(b"Rust", Category::Programming, &[b".rs"], &[]),
            def(b"C", Category::Programming, &[b".h"], &[b"#include <stdio"]),
            def(b"C++", Category::Programming, &[b".h"], &[b"class "]),
            def(b"JSON", Category::Data, &[b".json"], &[]),
            def(b"Markdown", Category::Prose, &[b".md"], &[]),
            def(b"Common Lisp", Category::Programming, &[b".lisp"], &[]),
            def(b"SQL", Category::Query, &[b".sql"], &[]),
        ],
        generated_suffixes: vec![v(b".min.js"), v(b".min.css")],
        documentation_names: vec![v(b"README")],
        documentation_dirs: vec![v(b"docs")],
        vendored_dirs: vec![v(b"vendor"), v(b"node_modules")],
        read_limit: 64,
    }
}

#[test]
fn min_js_is_generated_and_not_detectable() {
    let cat = catalog();
    let contents = v(b"var x=1;var y=2;");
    let e = classify(&cat, &v(b"generated.min.js"), &contents, &Overrides::none(), false)
        .expect("a language should match");
    assert!(e.language.name == v(b"JavaScript"));
    assert!(e.generated);
    assert!(!e.documentation);
    assert!(!e.vendored);
    assert!(!e.detectable);
    assert!(e.size == contents.len());
}

#[test]
fn vendored_override_false_beats_directory_heuristic() {
    let cat = catalog();
    let mut ov = Overrides::none();
    ov.vendored = Some(false);
    let e = classify(&cat, &v(b"vendor/pkg/lib.js"), &v(b"x"), &ov, false)
        .expect("a language should match");
    assert!(!e.vendored);
    // detectability is recomputed from the corrected value
    assert!(e.detectable);
}

#[test]
fn vendor_directory_heuristic_applies_without_override() {
    let cat = catalog();
    let e = classify(&cat, &v(b"vendor/pkg/lib.js"), &v(b"x"), &Overrides::none(), false)
        .expect("a language should match");
    assert!(e.vendored);
    assert!(!e.detectable);
}

#[test]
fn submodule_files_are_vendored_by_default() {
    let cat = catalog();
    let e = classify(&cat, &v(b"lib.js"), &v(b"x"), &Overrides::none(), true)
        .expect("a language should match");
    assert!(e.vendored);
    assert!(!e.detectable);
}

#[test]
fn data_category_is_never_detectable_by_default() {
    let cat = catalog();
    let e = classify(&cat, &v(b"package.json"), &v(b"{}"), &Overrides::none(), false)
        .expect("a language should match");
    assert!(matches!(e.language.category, Category::Data));
    assert!(!e.detectable);
    assert!(!e.generated && !e.documentation && !e.vendored);
}

#[test]
fn prose_category_is_never_detectable_by_default() {
    let cat = catalog();
    let e = classify(&cat, &v(b"notes.md"), &v(b"hello"), &Overrides::none(), false)
        .expect("a language should match");
    assert!(matches!(e.language.category, Category::Prose));
    assert!(!e.detectable);
}

#[test]
fn detectable_override_beats_the_category_rule() {
    let cat = catalog();
    let mut ov = Overrides::none();
    ov.detectable = Some(true);
    let e = classify(&cat, &v(b"package.json"), &v(b"{}"), &ov, false)
        .expect("a language should match");
    assert!(e.detectable);
}

#[test]
fn language_override_is_normalized_and_looked_up() {
    let cat = catalog();
    let mut ov = Overrides::none();
    ov.language = Some(v(b"Common-Lisp"));
    let e = classify(&cat, &v(b"strange.js"), &v(b"x"), &ov, false)
        .expect("a language should match");
    assert!(e.language.name == v(b"Common Lisp"));
}

#[test]
fn unknown_language_override_falls_through_to_heuristics() {
    let cat = catalog();
    let mut ov = Overrides::none();
    ov.language = Some(v(b"No-Such-Language"));
    let e = classify(&cat, &v(b"app.js"), &v(b"x"), &ov, false)
        .expect("a language should match");
    assert!(e.language.name == v(b"JavaScript"));
}

#[test]
fn ambiguous_extension_is_disambiguated_by_content_markers() {
    let cat = catalog();
    let c = classify(&cat, &v(b"io.h"), &v(b"#include <stdio.h>\n"), &Overrides::none(), false)
        .expect("the C marker should match");
    assert!(c.language.name == v(b"C"));
    let cpp = classify(&cat, &v(b"io.h"), &v(b"class Reader {};\n"), &Overrides::none(), false)
        .expect("the C++ marker should match");
    assert!(cpp.language.name == v(b"C++"));
}

#[test]
fn ambiguous_extension_without_markers_is_excluded() {
    let cat = catalog();
    let r = classify(&cat, &v(b"io.h"), &v(b"nothing special"), &Overrides::none(), false);
    assert!(r.is_none());
}

#[test]
fn unmatched_file_is_excluded() {
    let cat = catalog();
    let r = classify(&cat, &v(b"LICENSE"), &v(b"MIT"), &Overrides::none(), false);
    assert!(r.is_none());
}

#[test]
fn content_inspection_is_bounded_by_the_read_limit() {
    let mut cat = catalog();
    cat.read_limit = 8;
    let mut contents = v(b"        ");
    contents.extend_from_slice(b"#include <stdio.h>");
    let r = classify(&cat, &v(b"io.h"), &contents, &Overrides::none(), false);
    assert!(r.is_none());
}

#[test]
fn generated_override_false_beats_suffix_heuristic() {
    let cat = catalog();
    let mut ov = Overrides::none();
    ov.generated = Some(false);
    let e = classify(&cat, &v(b"lib.min.js"), &v(b"x"), &ov, false)
        .expect("a language should match");
    assert!(!e.generated);
    assert!(e.detectable);
}

#[test]
fn documentation_heuristics_use_basename_and_directories() {
    let cat = catalog();
    let readme = classify(&cat, &v(b"README.md"), &v(b"x"), &Overrides::none(), false)
        .expect("a language should match");
    assert!(readme.documentation);
    let in_docs = classify(&cat, &v(b"docs/api.js"), &v(b"x"), &Overrides::none(), false)
        .expect("a language should match");
    assert!(in_docs.documentation);
    assert!(!in_docs.detectable);
    let plain = classify(&cat, &v(b"src/api.js"), &v(b"x"), &Overrides::none(), false)
        .expect("a language should match");
    assert!(!plain.documentation);
}

#[test]
fn query_category_detectable_when_clean() {
    let cat = catalog();
    let e = classify(&cat, &v(b"schema.sql"), &v(b"select 1;"), &Overrides::none(), false)
        .expect("a language should match");
    assert!(matches!(e.language.category, Category::Query));
    assert!(e.detectable);
}

#[test]
fn classification_is_idempotent() {
    let cat = catalog();
    let path = v(b"vendor/generated.min.js");
    let contents = v(b"var x;");
    let a = classify(&cat, &path, &contents, &Overrides::none(), false).unwrap();
    let b = classify(&cat, &path, &contents, &Overrides::none(), false).unwrap();
    assert!(a.language == b.language);
    assert!(a.size == b.size);
    assert!(a.detectable == b.detectable);
    assert!(a.generated == b.generated);
    assert!(a.documentation == b.documentation);
    assert!(a.vendored == b.vendored);
}
