use gengo::analysis::Analysis;
use gengo::classify::Entry;
use gengo::language::{Category, Language};
use gengo::summary::SummaryOpts;
use gengo::traverse::{PathEntry, ResultSet};

fn v(s: &[u8]) -> Vec<u8> {
    s.to_vec()
}

fn lang(name: &[u8], category: Category) -> Language {
    Language { name: v(name), category }
}

fn entry(name: &[u8], size: usize, detectable: bool) -> Entry {
    Entry {
        language: lang(name, Category::Programming),
        size,
        detectable,
        generated: false,
        documentation: false,
        vendored: !detectable,
    }
}

fn slot(path: &[u8], result: Option<Entry>) -> PathEntry {
    PathEntry { path: v(path), id: v(b"0000"), result }
}

fn sample() -> Analysis {
    Analysis {
        units: vec![
            ResultSet {
                root: v(b""),
                entries: vec![
                    slot(b"a.js", Some(entry(b"JavaScript", 10, true))),
                    slot(b"b.rs", Some(entry(b"Rust", 7, true))),
                    slot(b"LICENSE", None),
                    slot(b"vendor/c.js", Some(entry(b"JavaScript", 5, false))),
                ],
            },
            ResultSet {
                root: v(b"vendor/pkg"),
                entries: vec![slot(b"lib/d.js", Some(entry(b"JavaScript", 20, true)))],
            },
        ],
    }
}

#[test]
fn summary_sums_detectable_entries_by_language() {
    let a = sample();
    let s = a.summary();
    assert!(s.len() == 2);
    assert!(s.total_for(&v(b"JavaScript")) == Some(30));
    assert!(s.total_for(&v(b"Rust")) == Some(7));
    assert!(s.total_for(&v(b"Python")).is_none());
}

#[test]
fn summary_with_all_counts_every_entry() {
    let a = sample();
    let s = a.summary_with(SummaryOpts { all: true });
    assert!(s.total_for(&v(b"JavaScript")) == Some(35));
    assert!(s.total_for(&v(b"Rust")) == Some(7));
}

#[test]
fn summary_keeps_first_seen_order() {
    let a = sample();
    let s = a.summary();
    let (first, total0) = s.get(0).expect("position 0 exists");
    assert!(first.name == v(b"JavaScript"));
    assert!(total0 == 30);
    let (second, total1) = s.get(1).expect("position 1 exists");
    assert!(second.name == v(b"Rust"));
    assert!(total1 == 7);
    assert!(s.get(2).is_none());
}

#[test]
fn default_options_exclude_non_detectable_entries() {
    let a = sample();
    let s = a.summary_with(SummaryOpts::default());
    assert!(s.total_for(&v(b"JavaScript")) == Some(30));
}

#[test]
fn pairs_compose_subrepository_paths_and_skip_unclassified() {
    let a = sample();
    let pairs = a.pairs();
    assert!(pairs.len() == 4);
    assert!(pairs[0].0 == v(b"a.js"));
    assert!(pairs[1].0 == v(b"b.rs"));
    assert!(pairs[2].0 == v(b"vendor/c.js"));
    assert!(pairs[3].0 == v(b"vendor/pkg/lib/d.js"));
    assert!(pairs[3].1.size == 20);
}

#[test]
fn iter_walks_every_classified_pair_in_order() {
    let a = sample();
    let mut it = a.iter();
    let mut seen: Vec<Vec<u8>> = Vec::new();
    while let Some((path, _)) = it.next() {
        seen.push(path);
    }
    assert!(seen == vec![v(b"a.js"), v(b"b.rs"), v(b"vendor/c.js"), v(b"vendor/pkg/lib/d.js")]);
}

#[test]
fn summary_is_idempotent() {
    let a = sample();
    let s1 = a.summary();
    let s2 = a.summary();
    assert!(s1.len() == s2.len());
    for i in 0..s1.len() {
        let (l1, t1) = s1.get(i).unwrap();
        let (l2, t2) = s2.get(i).unwrap();
        assert!(l1 == l2);
        assert!(t1 == t2);
    }
}

#[test]
fn empty_analysis_has_an_empty_summary() {
    let a = Analysis { units: Vec::new() };
    let s = a.summary();
    assert!(s.len() == 0);
    assert!(s.get(0).is_none());
    assert!(s.total_for(&v(b"JavaScript")).is_none());
}
