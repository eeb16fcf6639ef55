use crates_io_lsp::cache::VersionCache;
use crates_io_lsp::diagnostics::{
    classify, message, newest_first, resolution_names, severity, starts_with, synthesize,
    Classification, DependencyEntry, Severity,
};
use crates_io_lsp::text::Position;

fn strings(v: &[&str]) -> Vec<String> {
    v.iter().map(|s| s.to_string()).collect()
}

fn entry(name: &str, start: usize, end: usize, req: &str, is_path: bool) -> DependencyEntry {
    DependencyEntry {
        name: name.to_string(),
        start,
        end,
        requirement: req.to_string(),
        is_path,
    }
}

#[test]
fn classification_of_published_versions() {
    let newest = newest_first(&strings(&["1.0.0", "1.1.0", "2.0.0"]));
    assert_eq!(newest, strings(&["2.0.0", "1.1.0", "1.0.0"]));
    assert_eq!(classify(&newest, "2"), Classification::Latest);
    assert_eq!(classify(&newest, "1.1"), Classification::Outdated);
    assert_eq!(classify(&newest, "9"), Classification::UnknownVersion);
    assert_eq!(classify(&newest, "*"), Classification::AnyVersion);
}

#[test]
fn empty_version_list_is_unresolvable() {
    assert_eq!(classify(&Vec::new(), "1"), Classification::Unresolvable);
    assert_eq!(classify(&Vec::new(), "*"), Classification::Unresolvable);
}

#[test]
fn severities_of_classifications() {
    assert_eq!(severity(Classification::Unresolvable), Severity::Error);
    assert_eq!(severity(Classification::AnyVersion), Severity::Information);
    assert_eq!(severity(Classification::Latest), Severity::Hint);
    assert_eq!(severity(Classification::Outdated), Severity::Warning);
    assert_eq!(severity(Classification::UnknownVersion), Severity::Error);
}

#[test]
fn starts_with_is_a_byte_prefix() {
    assert!(starts_with("1.2.3", "1.2"));
    assert!(starts_with("1.2.3", ""));
    assert!(!starts_with("1.2", "1.2.3"));
    assert!(!starts_with("2.0", "1"));
}

#[test]
fn message_lists_versions_newest_first() {
    let newest = strings(&["2.0.0", "1.0.0"]);
    assert_eq!(
        message("serde", "1", &newest, Classification::Outdated),
        "Outdated Version\n\nserde (1)\n2.0.0\n1.0.0"
    );
    assert_eq!(
        message("serde", "1", &Vec::new(), Classification::Unresolvable),
        "Unknown/Unresolvable Version\n\nserde (1)\n"
    );
}

#[test]
fn path_dependencies_are_not_resolved() {
    let entries = vec![
        entry("serde", 0, 5, "1", false),
        entry("local", 10, 15, "", true),
        entry("toml", 20, 24, "0.9", false),
    ];
    assert_eq!(resolution_names(&entries), strings(&["serde", "toml"]));
}

#[test]
fn synthesize_reports_each_registry_dependency() {
    let text = b"[dependencies]\nserde = \"1\"\nlocal = { path = \"x\" }\nmissing = \"2\"\n".to_vec();
    let entries = vec![
        entry("serde", 15, 20, "1", false),
        entry("local", 27, 32, "", true),
        entry("missing", 50, 57, "2", false),
        entry("beyond", 500, 506, "1", false),
    ];
    let mut cache = VersionCache::new();
    cache.record("serde".to_string(), Some(strings(&["1.0.0", "1.0.1"])));
    let diags = synthesize(&text, &entries, &cache);
    assert_eq!(diags.len(), 2);
    assert_eq!(diags[0].dependency, "serde");
    assert_eq!(diags[0].severity, Severity::Hint);
    assert_eq!(diags[0].range.start, Position { line: 1, character: 0 });
    assert_eq!(diags[0].range.end, Position { line: 1, character: 5 });
    assert_eq!(diags[0].message, "Latest Version\n\nserde (1)\n1.0.1\n1.0.0");
    assert_eq!(diags[1].dependency, "missing");
    assert_eq!(diags[1].severity, Severity::Error);
    assert_eq!(diags[1].range.start, Position { line: 3, character: 0 });
    assert_eq!(diags[1].message, "Unknown/Unresolvable Version\n\nmissing (2)\n");
    assert!(diags.iter().all(|d| d.dependency != "local"));
}
