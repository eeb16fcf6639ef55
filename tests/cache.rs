use crates_io_lsp::cache::VersionCache;

fn strings(v: &[&str]) -> Vec<String> {
    v.iter().map(|s| s.to_string()).collect()
}

#[test]
fn misses_lists_each_uncached_name_once() {
    let mut cache = VersionCache::new();
    cache.record("serde".to_string(), Some(strings(&["1.0.0"])));
    let misses = cache.misses(&strings(&["toml", "serde", "toml", "clap"]));
    assert_eq!(misses, strings(&["toml", "clap"]));
}

#[test]
fn second_resolution_is_served_from_cache() {
    let mut cache = VersionCache::new();
    let names = strings(&["serde"]);
    assert_eq!(cache.misses(&names), names);
    cache.record("serde".to_string(), Some(strings(&["1.0.0", "1.0.1"])));
    let first = cache.versions_of("serde");
    assert!(cache.misses(&names).is_empty());
    let second = cache.versions_of("serde");
    assert_eq!(first, second);
    assert_eq!(second, strings(&["1.0.0", "1.0.1"]));
}

#[test]
fn failed_fetch_is_not_cached() {
    let mut cache = VersionCache::new();
    cache.record("tokio".to_string(), None);
    assert!(cache.versions_of("tokio").is_empty());
    assert_eq!(cache.misses(&strings(&["tokio"])), strings(&["tokio"]));
}
