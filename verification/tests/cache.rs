use derive_analysis::repo_cache::CacheConfig;
use derive_analysis::repo_cache::CloneDecision;
use derive_analysis::repo_cache::RepositoryCache;
use derive_analysis::repo_cache::clone_decision;
use derive_analysis::repo_cache::is_rust_file;
use derive_analysis::repo_cache::is_skipped_dir;
use derive_analysis::repo_cache::parse_du_size;
use derive_analysis::repo_cache::CacheError;

fn config(max_repositories: usize, max_size_bytes: u64) -> CacheConfig {
    CacheConfig { max_repositories, cache_root: "./repo_cache".to_string(), max_size_bytes }
}

#[test]
fn cache_hit_serves_without_clone() {
    let mut cache = RepositoryCache::new(config(5, 1 << 30));
    let evicted = cache.evict_for_count();
    assert!(evicted.is_empty());
    cache.record_clone("owner/repo", "./repo_cache/owner_repo".to_string());
    assert_eq!(cache.entry_count(), 1);
    // a mapped key whose path exists is served as it is: no clone, no change
    let hit = cache.ensure_hit("owner/repo", true);
    assert_eq!(hit, Some("./repo_cache/owner_repo".to_string()));
    assert_eq!(cache.entry_count(), 1);
}

#[test]
fn vanished_path_is_treated_as_miss() {
    let mut cache = RepositoryCache::new(config(5, 1 << 30));
    cache.record_clone("owner/repo", "./repo_cache/owner_repo".to_string());
    let hit = cache.ensure_hit("owner/repo", false);
    assert!(hit.is_none());
    assert_eq!(cache.entry_count(), 0);
    let miss = cache.ensure_hit("owner/other", true);
    assert!(miss.is_none());
}

#[test]
fn count_eviction_is_insertion_ordered() {
    let mut cache = RepositoryCache::new(config(2, 1 << 30));
    cache.evict_for_count();
    cache.record_clone("a/a", "pa".to_string());
    cache.evict_for_count();
    cache.record_clone("b/b", "pb".to_string());
    assert_eq!(cache.entry_count(), 2);
    // at the limit: admission evicts the oldest entry first
    let evicted = cache.evict_for_count();
    assert_eq!(evicted, vec!["pa".to_string()]);
    assert_eq!(cache.entry_count(), 1);
    cache.record_clone("c/c", "pc".to_string());
    assert_eq!(cache.entry_count(), 2);
}

#[test]
fn size_eviction_stops_at_limit_or_empty() {
    let mut cache = RepositoryCache::new(config(5, 1000));
    cache.record_clone("a/a", "pa".to_string());
    cache.record_clone("b/b", "pb".to_string());
    assert_eq!(cache.size_eviction_step(900), None);
    assert_eq!(cache.size_eviction_step(1000), None);
    assert_eq!(cache.size_eviction_step(1001), Some("pa".to_string()));
    assert_eq!(cache.size_eviction_step(1001), Some("pb".to_string()));
    // nothing left to evict: the step reports it even over the limit
    assert_eq!(cache.size_eviction_step(5000), None);
}

#[test]
fn cleanup_returns_every_path() {
    let mut cache = RepositoryCache::new(config(5, 1 << 30));
    cache.record_clone("a/a", "pa".to_string());
    cache.record_clone("b/b", "pb".to_string());
    let all = cache.evict_all();
    assert_eq!(all, vec!["pa".to_string(), "pb".to_string()]);
    assert_eq!(cache.entry_count(), 0);
    // idempotent when already empty
    assert!(cache.evict_all().is_empty());
}

#[test]
fn sanitize_replaces_separators() {
    let cache = RepositoryCache::new(CacheConfig::default());
    assert_eq!(cache.sanitize_repo_name("owner/repo"), "owner_repo");
    assert_eq!(cache.sanitize_repo_name("a/b\\c"), "a_b_c");
    assert_eq!(cache.sanitize_repo_name("plain"), "plain");
}

#[test]
fn clone_target_is_under_root() {
    let cache = RepositoryCache::new(config(5, 1 << 30));
    assert_eq!(cache.clone_target("owner/repo"), "./repo_cache/owner_repo");
}

#[test]
fn clone_decision_tree() {
    assert!(matches!(clone_decision(true, true), CloneDecision::UseExisting));
    assert!(matches!(clone_decision(true, false), CloneDecision::RecloneAfterDelete));
    assert!(matches!(clone_decision(false, true), CloneDecision::FreshClone));
    assert!(matches!(clone_decision(false, false), CloneDecision::FreshClone));
}

#[test]
fn du_output_parses_first_token() {
    assert_eq!(parse_du_size("123456\t/tmp/cache"), 123456);
    assert_eq!(parse_du_size("  42 whatever else"), 42);
    assert_eq!(parse_du_size(""), 0);
    assert_eq!(parse_du_size("du: cannot access"), 0);
}

#[test]
fn file_enumeration_predicates() {
    assert!(is_skipped_dir("target"));
    assert!(is_skipped_dir("node_modules"));
    assert!(is_skipped_dir(".git"));
    assert!(is_skipped_dir(".github"));
    assert!(is_skipped_dir("vendor"));
    assert!(is_skipped_dir("third_party"));
    assert!(is_skipped_dir("deps"));
    assert!(is_skipped_dir("build"));
    assert!(!is_skipped_dir("src"));
    assert!(is_rust_file("src/lib.rs"));
    assert!(is_rust_file("a.rs"));
    assert!(!is_rust_file("lib.rs.bak"));
    assert!(!is_rust_file(".rs"));
    assert!(!is_rust_file("dir/.rs"));
    assert!(!is_rust_file("README.md"));
}

#[test]
fn default_config() {
    let c = CacheConfig::default();
    assert_eq!(c.max_repositories, 5);
    assert_eq!(c.cache_root, "./repo_cache");
    assert_eq!(c.max_size_bytes, 2 * 1024 * 1024 * 1024);
}

#[test]
fn cache_error_messages() {
    assert_eq!(CacheError::IoError("x".to_string()).message(), "I/O error: x");
    assert_eq!(CacheError::GitError("y".to_string()).message(), "Git error: y");
}
