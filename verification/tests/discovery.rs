use derive_analysis::github::GitHubClient;
use derive_analysis::github::PageOutcome;
use derive_analysis::github::SearchItem;
use derive_analysis::github::SearchSession;
use derive_analysis::github::SearchStep;
use derive_analysis::github::jitter_ms;
use derive_analysis::github::now_secs;

fn item(full_name: &str, stars: u32, size: u32) -> SearchItem {
    SearchItem {
        name: full_name.to_string(),
        full_name: full_name.to_string(),
        clone_url: format!("https://example.invalid/{}.git", full_name),
        language: Some("Rust".to_string()),
        stargazers_count: stars,
        size,
    }
}

#[test]
fn discovery_zero_limit_is_done_immediately() {
    let (s, step) = SearchSession::begin(0, 100);
    assert!(matches!(step, SearchStep::Done));
    assert_eq!(s.finish().len(), 0);
}

#[test]
fn discovery_respects_limit_cap() {
    // a limit beyond the searchable window is capped at 1000
    let (mut s, step) = SearchSession::begin(2000, 50);
    match step {
        SearchStep::Request { page, per_page, delay_ms } => {
            assert_eq!(page, 1);
            assert_eq!(per_page, 100);
            assert_eq!(delay_ms, 0);
        },
        _ => panic!("expected a first page request"),
    }
    // one full page of acceptable items, then stop short on the second
    let items: Vec<SearchItem> = (0..100).map(|i| item(&format!("o/r{}", i), 500, 50)).collect();
    let step = s.on_response(PageOutcome::Success {
        items,
        rate_remaining: Some("29".to_string()),
        rate_reset: None,
    });
    match step {
        SearchStep::Request { page, delay_ms, .. } => {
            assert_eq!(page, 2);
            assert!(delay_ms >= 2200);
        },
        _ => panic!("expected the next page request"),
    }
    let step = s.on_response(PageOutcome::Success {
        items: vec![item("o/last", 10, 50)],
        rate_remaining: None,
        rate_reset: None,
    });
    assert!(matches!(step, SearchStep::Done));
    let repos = s.finish();
    assert_eq!(repos.len(), 101);
    assert!(repos.len() <= 1000);
}

#[test]
fn discovery_caps_at_requested_limit() {
    let (mut s, _) = SearchSession::begin(3, 1);
    let items: Vec<SearchItem> = (0..3).map(|i| item(&format!("o/r{}", i), 9, 50)).collect();
    let step = s.on_response(PageOutcome::Success {
        items,
        rate_remaining: None,
        rate_reset: None,
    });
    assert!(matches!(step, SearchStep::Done));
    let repos = s.finish();
    assert_eq!(repos.len(), 3);
    assert_eq!(repos[0].full_name, "o/r0");
    assert_eq!(repos[2].full_name, "o/r2");
}

#[test]
fn discovery_filters_near_empty_repositories() {
    let (mut s, _) = SearchSession::begin(10, 1);
    let step = s.on_response(PageOutcome::Success {
        items: vec![item("o/keep", 5, 50), item("o/tiny", 5, 10), item("o/keep2", 5, 11)],
        rate_remaining: None,
        rate_reset: None,
    });
    assert!(matches!(step, SearchStep::Done));
    let repos = s.finish();
    assert_eq!(repos.len(), 2);
    assert_eq!(repos[0].full_name, "o/keep");
    assert_eq!(repos[1].full_name, "o/keep2");
}

#[test]
fn throttled_retries_same_page() {
    let (mut s, _) = SearchSession::begin(10, 1);
    let step = s.on_response(PageOutcome::Throttled { retry_after: Some("3".to_string()) });
    match step {
        SearchStep::Request { page, delay_ms, .. } => {
            assert_eq!(page, 1);
            // the server's wait, plus jitter up to half as much again
            assert!(delay_ms >= 3000 && delay_ms <= 4500);
        },
        _ => panic!("expected a retry of the same page"),
    }
    // without Retry-After: exponential backoff, attempt 2 gives 4s base
    let step = s.on_response(PageOutcome::Throttled { retry_after: None });
    match step {
        SearchStep::Request { page, delay_ms, .. } => {
            assert_eq!(page, 1);
            assert!(delay_ms >= 4000 && delay_ms <= 6000);
        },
        _ => panic!("expected a retry of the same page"),
    }
}

#[test]
fn other_failure_aborts() {
    let (mut s, _) = SearchSession::begin(10, 1);
    let step = s.on_response(PageOutcome::Failed { status: 500, body: "oops".to_string() });
    match step {
        SearchStep::Abort { status, body } => {
            assert_eq!(status, 500);
            assert_eq!(body, "oops");
        },
        _ => panic!("expected an abort"),
    }
}

#[test]
fn request_url_shape() {
    let (s, _) = SearchSession::begin(10, 100);
    let url = s.request_url(2, 10);
    assert_eq!(
        url,
        "https://api.github.com/search/repositories?q=language:rust+stars:>=100+sort:stars+size:>10&sort=stars&order=desc&page=2&per_page=10"
    );
}

#[test]
fn jitter_stays_in_band() {
    for _ in 0..50 {
        let d = jitter_ms(2200);
        assert!(d >= 2200 && d <= 3300);
    }
    assert_eq!(jitter_ms(0), 0);
}

#[test]
fn clock_reads() {
    // the epoch-seconds clock is monotone enough to be nonzero today
    assert!(now_secs() > 0);
}

#[test]
fn client_keeps_token() {
    let c = GitHubClient::new(Some("example-token".to_string()));
    assert!(c.token.is_some());
    let c = GitHubClient::new(None);
    assert!(c.token.is_none());
}
