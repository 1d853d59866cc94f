use sentry_slug::config::{resolve_config, Configuration};
use sentry_slug::errors::{ConfigError, ProviderError};
use sentry_slug::json::serialize_projects;
use sentry_slug::project::Project;
use sentry_slug::provider::{build_url, get_projects, Event, HttpReply, Step};
use sentry_slug::slug::get_slug;

fn proj(id: &str, slug: &str) -> Project {
    Project { id: id.as_bytes().to_vec(), slug: slug.as_bytes().to_vec() }
}

fn cfg(clear_cache: bool) -> Configuration {
    Configuration {
        api_key: b"test-token".to_vec(),
        api_url: b"https://sentry.io".to_vec(),
        org: b"my-org".to_vec(),
        project_id: b"123".to_vec(),
        clear_cache,
    }
}

fn same_list(a: &[Project], b: &[Project]) -> bool {
    a.len() == b.len() && a.iter().zip(b.iter()).all(|(x, y)| x.id == y.id && x.slug == y.slug)
}

#[test]
fn cache_hit_returns_cached_list_without_fetch() {
    let c = cfg(false);
    let cached = vec![proj("123", "my-proj"), proj("4", "x")];
    let bytes = serialize_projects(&cached);
    // first action is the cache read, not the fetch
    let s1 = get_projects(&c, Step::Start, Event::Begin);
    assert!(matches!(s1, Step::ReadCache));
    // a parsable cache ends the run at once with exactly the cached list
    let s2 = get_projects(&c, s1, Event::CacheContents { contents: Some(bytes) });
    match s2 {
        Step::Done { projects } => assert!(same_list(&projects, &cached)),
        _ => panic!("expected Done"),
    }
}

#[test]
fn clear_cache_goes_straight_to_fetch_and_overwrites_cache() {
    let c = cfg(true);
    // the cache is never read: the first action is already the fetch
    let s1 = get_projects(&c, Step::Start, Event::Begin);
    let (url, token) = match &s1 {
        Step::Fetch { url, token } => (url.clone(), token.clone()),
        _ => panic!("expected Fetch"),
    };
    assert_eq!(
        String::from_utf8(url).unwrap(),
        "https://sentry.io/api/0/organizations/my-org/projects/"
    );
    assert_eq!(token, c.api_key);
    // a successful fetch writes the serialized list back to the cache
    let fetched = vec![proj("123", "my-proj")];
    let body = b"[{\"id\":\"123\",\"slug\":\"my-proj\",\"extra\":0}]".to_vec();
    let s2 = get_projects(&c, s1, Event::Response {
        outcome: Ok(HttpReply { status: 200, body }),
    });
    let s3 = match s2 {
        Step::WriteCache { contents, projects } => {
            assert!(same_list(&projects, &fetched));
            assert_eq!(contents, serialize_projects(&fetched));
            get_projects(&c, Step::WriteCache { contents, projects }, Event::WriteOutcome {
                ok: true,
            })
        },
        _ => panic!("expected WriteCache"),
    };
    match s3 {
        Step::Done { projects } => assert!(same_list(&projects, &fetched)),
        _ => panic!("expected Done"),
    }
}

#[test]
fn non_2xx_response_is_api_error_with_verbatim_body() {
    let c = cfg(false);
    let fetch = get_projects(&c, Step::ReadCache, Event::CacheContents { contents: None });
    assert!(matches!(fetch, Step::Fetch { .. }));
    let s = get_projects(&c, fetch, Event::Response {
        outcome: Ok(HttpReply { status: 401, body: b"invalid token".to_vec() }),
    });
    // terminal failure: in particular no cache write is requested
    match s {
        Step::Failed { error: ProviderError::Api(e) } => {
            assert_eq!(e.body, b"invalid token".to_vec());
        },
        _ => panic!("expected Failed with an API error"),
    }
}

#[test]
fn corrupted_cache_falls_through_to_fetch_then_overwrites() {
    let c = cfg(false);
    let s1 = get_projects(&c, Step::Start, Event::Begin);
    let truncated = b"[{\"id\":\"123\",\"slug\":\"my-pr".to_vec();
    let s2 = get_projects(&c, s1, Event::CacheContents { contents: Some(truncated) });
    assert!(matches!(s2, Step::Fetch { .. }));
    let s3 = get_projects(&c, s2, Event::Response {
        outcome: Ok(HttpReply { status: 200, body: b"[{\"id\":\"9\",\"slug\":\"n\"}]".to_vec() }),
    });
    match s3 {
        Step::WriteCache { contents, .. } => {
            assert_eq!(contents, b"[{\"id\":\"9\",\"slug\":\"n\"}]".to_vec());
        },
        _ => panic!("expected WriteCache"),
    }
}

#[test]
fn status_boundaries() {
    let c = cfg(true);
    for (status, ok) in [(199u16, false), (200, true), (299, true), (300, false)] {
        let s1 = get_projects(&c, Step::Start, Event::Begin);
        let s2 = get_projects(&c, s1, Event::Response {
            outcome: Ok(HttpReply { status, body: b"[]".to_vec() }),
        });
        if ok {
            assert!(matches!(s2, Step::WriteCache { .. }));
        } else {
            assert!(matches!(s2, Step::Failed { error: ProviderError::Api(_) }));
        }
    }
}

#[test]
fn transport_failure_is_network_error() {
    let c = cfg(true);
    let s1 = get_projects(&c, Step::Start, Event::Begin);
    let s2 = get_projects(&c, s1, Event::Response {
        outcome: Err(b"connection refused".to_vec()),
    });
    match s2 {
        Step::Failed { error: ProviderError::Network { message } } => {
            assert_eq!(message, b"connection refused".to_vec());
        },
        _ => panic!("expected Failed with a network error"),
    }
}

#[test]
fn unparsable_body_is_parse_error() {
    let c = cfg(true);
    let s1 = get_projects(&c, Step::Start, Event::Begin);
    let s2 = get_projects(&c, s1, Event::Response {
        outcome: Ok(HttpReply { status: 200, body: b"not json".to_vec() }),
    });
    assert!(matches!(s2, Step::Failed { error: ProviderError::Parse }));
}

#[test]
fn failed_cache_write_is_an_error() {
    let c = cfg(true);
    let s = get_projects(
        &c,
        Step::WriteCache { contents: b"[]".to_vec(), projects: Vec::new() },
        Event::WriteOutcome { ok: false },
    );
    assert!(matches!(s, Step::Failed { error: ProviderError::CacheWrite }));
}

#[test]
fn get_slug_finds_first_match() {
    let ps = vec![proj("1", "one"), proj("123", "my-proj"), proj("123", "shadowed")];
    let r = get_slug(&b"123".to_vec(), &ps).unwrap();
    assert_eq!(r, b"my-proj".to_vec());
}

#[test]
fn get_slug_not_found() {
    let ps = vec![proj("123", "my-proj")];
    assert!(get_slug(&b"999".to_vec(), &ps).is_err());
    assert!(get_slug(&b"123".to_vec(), &Vec::new()).is_err());
}

#[test]
fn missing_org_is_fatal_before_any_request() {
    let r = resolve_config(
        Some(b"k".to_vec()),
        None,
        None,
        None,
        None,
        None,
        Some(b"123".to_vec()),
        false,
    );
    // the provider cannot even be started: no configuration exists
    assert_eq!(r.unwrap_err(), ConfigError::MissingOrg);
}

#[test]
fn missing_key_and_missing_project_id_are_fatal() {
    let r = resolve_config(None, None, None, None, Some(b"o".to_vec()), None, None, false);
    assert_eq!(r.unwrap_err(), ConfigError::MissingApiKey);
    let r = resolve_config(
        None,
        Some(b"k".to_vec()),
        None,
        None,
        Some(b"o".to_vec()),
        None,
        None,
        false,
    );
    assert_eq!(r.unwrap_err(), ConfigError::MissingProjectId);
}

#[test]
fn flags_beat_environment_and_url_defaults() {
    let c = resolve_config(
        Some(b"flag-key".to_vec()),
        Some(b"env-key".to_vec()),
        None,
        Some(b"https://example.test".to_vec()),
        None,
        Some(b"env-org".to_vec()),
        Some(b"42".to_vec()),
        true,
    )
    .unwrap();
    assert_eq!(c.api_key, b"flag-key".to_vec());
    assert_eq!(c.api_url, b"https://example.test".to_vec());
    assert_eq!(c.org, b"env-org".to_vec());
    assert_eq!(c.project_id, b"42".to_vec());
    assert!(c.clear_cache);

    let c = resolve_config(
        Some(b"k".to_vec()),
        None,
        None,
        None,
        Some(b"o".to_vec()),
        None,
        Some(b"1".to_vec()),
        false,
    )
    .unwrap();
    assert_eq!(c.api_url, b"https://sentry.io".to_vec());
}

#[test]
fn build_url_concatenates_the_endpoint() {
    let c = cfg(false);
    assert_eq!(
        String::from_utf8(build_url(&c)).unwrap(),
        "https://sentry.io/api/0/organizations/my-org/projects/"
    );
}

#[test]
fn cache_file_name_is_projects_json() {
    assert_eq!(sentry_slug::cache_file_name(), b"projects.json".to_vec());
}
