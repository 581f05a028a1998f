use gengo::analysis::Analysis;
use gengo::classify::Overrides;
use gengo::language::{Catalog, Category, Language, LanguageDef};
use gengo::traverse::{child_units, from_index, EntryMode, RawEntry, ResolvedSubmodule};

fn v(s: &[u8]) -> Vec<u8> {
    s.to_vec()
}

fn raw(path: &[u8], id: &[u8], mode: EntryMode) -> RawEntry {
    RawEntry { path: v(path), id: v(id), mode }
}

fn catalog() -> Catalog {
    Catalog {
        defs: vec![LanguageDef {
            language: Language { name: v(b"C"), category: Category::Programming },
            extensions: vec![v(b".c")],
            filenames: Vec::new(),
            markers: Vec::new(),
        }],
        generated_suffixes: Vec::new(),
        documentation_names: Vec::new(),
        documentation_dirs: Vec::new(),
        vendored_dirs: Vec::new(),
        read_limit: 32,
    }
}

#[test]
fn from_index_keeps_regular_files_and_collects_submodules() {
    let listing = vec![
        raw(b"src/main.c", b"a1", EntryMode::File),
        raw(b"link", b"a2", EntryMode::Symlink),
        raw(b"vendor/pkg", b"c1", EntryMode::Commit),
        raw(b"tools/run", b"a3", EntryMode::FileExecutable),
        raw(b"odd", b"a4", EntryMode::Other),
    ];
    let (rs, subs) = from_index(v(b""), &listing);
    assert!(rs.root == v(b""));
    assert!(rs.entries.len() == 2);
    assert!(rs.entries[0].path == v(b"src/main.c"));
    assert!(rs.entries[0].result.is_none());
    assert!(rs.entries[1].path == v(b"tools/run"));
    assert!(subs.len() == 1);
    assert!(subs[0].path == v(b"vendor/pkg"));
    assert!(subs[0].commit == v(b"c1"));
}

#[test]
fn child_units_skip_subrepositories_that_could_not_be_opened() {
    let resolved = vec![
        ResolvedSubmodule { path: v(b"vendor/pkg"), tree: Some(v(b"t1")) },
        ResolvedSubmodule { path: v(b"vendor/broken"), tree: None },
        ResolvedSubmodule { path: v(b"third/ok"), tree: Some(v(b"t2")) },
    ];
    let units = child_units(&v(b""), &resolved);
    assert!(units.len() == 2);
    assert!(units[0].root == v(b"vendor/pkg"));
    assert!(units[0].tree == v(b"t1"));
    assert!(units[1].root == v(b"third/ok"));
}

#[test]
fn child_unit_roots_compose_with_the_parent_prefix() {
    let resolved = vec![ResolvedSubmodule { path: v(b"inner"), tree: Some(v(b"t3")) }];
    let units = child_units(&v(b"vendor/pkg"), &resolved);
    assert!(units.len() == 1);
    assert!(units[0].root == v(b"vendor/pkg/inner"));
}

#[test]
fn classify_at_writes_back_into_its_slot_only() {
    let listing = vec![
        raw(b"a.c", b"a1", EntryMode::File),
        raw(b"b.c", b"a2", EntryMode::File),
    ];
    let (mut rs, _) = from_index(v(b""), &listing);
    let cat = catalog();
    rs.classify_at(1, &cat, &v(b"int x;"), &Overrides::none(), false);
    assert!(rs.entries[0].result.is_none());
    let e = rs.entries[1].result.as_ref().expect("slot 1 is classified");
    assert!(e.language.name == v(b"C"));
    assert!(e.size == 6);
    assert!(rs.entries[1].path == v(b"b.c"));
}

#[test]
fn classify_unit_fills_every_slot_in_listing_order() {
    let listing = vec![
        raw(b"a.c", b"a1", EntryMode::File),
        raw(b"LICENSE", b"a2", EntryMode::File),
        raw(b"b.c", b"a3", EntryMode::File),
    ];
    let (mut rs, _) = from_index(v(b""), &listing);
    let cat = catalog();
    let contents = vec![v(b"int a;"), v(b"MIT"), v(b"int bb;")];
    let overrides = vec![Overrides::none(), Overrides::none(), Overrides::none()];
    rs.classify_unit(&cat, &contents, &overrides, false);
    assert!(rs.entries[0].result.is_some());
    assert!(rs.entries[1].result.is_none());
    assert!(rs.entries[2].result.is_some());
    assert!(rs.entries[0].path == v(b"a.c"));
    assert!(rs.entries[2].result.as_ref().unwrap().size == 7);
}

#[test]
fn a_subrepository_file_is_reported_at_its_composed_path() {
    let parent = v(b"vendor/pkg");
    let listing = vec![raw(b"lib/foo.c", b"a1", EntryMode::File)];
    let (mut rs, _) = from_index(parent, &listing);
    let cat = catalog();
    rs.classify_at(0, &cat, &v(b"int q;"), &Overrides::none(), true);
    let a = Analysis { units: vec![rs] };
    let pairs = a.pairs();
    assert!(pairs.len() == 1);
    assert!(pairs[0].0 == v(b"vendor/pkg/lib/foo.c"));
    assert!(pairs[0].1.vendored);
}

#[test]
fn an_unopenable_subrepository_contributes_no_entries() {
    let listing = vec![
        raw(b"main.c", b"a1", EntryMode::File),
        raw(b"vendor/broken", b"c9", EntryMode::Commit),
    ];
    let (mut rs, subs) = from_index(v(b""), &listing);
    assert!(subs.len() == 1);
    let resolved = vec![ResolvedSubmodule { path: subs[0].path.clone(), tree: None }];
    let units = child_units(&v(b""), &resolved);
    assert!(units.is_empty());
    let cat = catalog();
    rs.classify_at(0, &cat, &v(b"int m;"), &Overrides::none(), false);
    let a = Analysis { units: vec![rs] };
    let pairs = a.pairs();
    assert!(pairs.len() == 1);
    assert!(pairs[0].0 == v(b"main.c"));
    let s = a.summary();
    assert!(s.total_for(&v(b"C")) == Some(6));
}
