//! MTA-STS: policies, the HTTP response they come in, the policy cache.

use snail::clock::{Duration, Timestamp};
use snail::network::dns::txt::TxtRecord;
use snail::network::error::NetworkError;
use snail::network::mta_sts::fetch::{
    buffer_chunk, no_address, parse_http_response, policy_host, request, MAX_BODY, MAX_HEADERS,
};
use snail::network::mta_sts::policy::{parse_sts_txt, MtaStsMode, MtaStsPolicy, MAX_AGE_CAP};
use snail::network::mta_sts::{
    discover_id, discovery_name, normalize, CacheEntry, Lookup, MtaStsResolver, MAX_CACHE,
    NEGATIVE_TTL_SECS,
};

// ---------------------------------------------------------------------------
// HTTP
// ---------------------------------------------------------------------------

fn resp(headers: &str, body: &str) -> Vec<u8> {
    format!("{headers}\r\n\r\n{body}").into_bytes()
}

#[test]
fn parses_a_200_with_content_length() {
    let body = "version: STSv1\nmode: enforce\nmx: mx.example.com\nmax_age: 100\n";
    let raw = resp(
        &format!(
            "HTTP/1.1 200 OK\r\nContent-Type: text/plain\r\nContent-Length: {}",
            body.len()
        ),
        body,
    );
    assert_eq!(
        parse_http_response(&raw, "mta-sts.example.com").unwrap(),
        body
    );
}

#[test]
fn accepts_http_1_0() {
    let body = "x";
    let raw = resp("HTTP/1.0 200 OK\r\nContent-Length: 1", body);
    assert_eq!(parse_http_response(&raw, "h").unwrap(), "x");
}

#[test]
fn rejects_a_redirect() {
    let raw = resp(
        "HTTP/1.1 301 Moved\r\nLocation: https://evil/\r\nContent-Length: 0",
        "",
    );
    assert!(parse_http_response(&raw, "h").is_err());
}

#[test]
fn rejects_chunked() {
    let raw = resp(
        "HTTP/1.1 200 OK\r\nTransfer-Encoding: chunked",
        "5\r\nhello\r\n0\r\n",
    );
    assert!(parse_http_response(&raw, "h").is_err());
}

#[test]
fn rejects_missing_content_length() {
    let raw = resp("HTTP/1.1 200 OK\r\nContent-Type: text/plain", "body");
    assert!(parse_http_response(&raw, "h").is_err());
}

#[test]
fn rejects_oversized_content_length() {
    let raw = resp(
        &format!("HTTP/1.1 200 OK\r\nContent-Length: {}", MAX_BODY + 1),
        "",
    );
    assert!(parse_http_response(&raw, "h").is_err());
}

#[test]
fn header_match_is_case_insensitive() {
    let body = "hi";
    let raw = resp("HTTP/1.1 200 OK\r\ncontent-length: 2", body);
    assert_eq!(parse_http_response(&raw, "h").unwrap(), "hi");
}

#[test]
fn body_must_be_complete_and_text() {
    assert!(parse_http_response(&resp("HTTP/1.1 200 OK\r\nContent-Length: 5", "hi"), "h").is_err());
    assert_eq!(
        parse_http_response(&resp("HTTP/1.1 200 OK\r\nContent-Length: 2", "hi there"), "h").unwrap(),
        "hi"
    );
    let mut raw = b"HTTP/1.1 200 OK\r\nContent-Length: 1\r\n\r\n".to_vec();
    raw.push(0xff);
    match parse_http_response(&raw, "h") {
        Err(e) => assert_eq!(
            e.to_string(),
            "malformed MTA-STS record: fetch from h: non-UTF-8 policy body"
        ),
        Ok(body) => panic!("a body of {body:?} is no text"),
    }
    assert!(parse_http_response(b"HTTP/1.1 200 OK\r\nContent-Length: 1\r\n", "h").is_err());
}

#[test]
fn response_buffer_is_capped() {
    let mut buf = vec![0u8; MAX_HEADERS + MAX_BODY - 1];
    assert!(buffer_chunk(&mut buf, b"a", "h").is_ok());
    assert!(buffer_chunk(&mut buf, b"b", "h").is_err());
}

#[test]
fn request_asks_for_the_well_known_file() {
    assert_eq!(policy_host("example.com"), "mta-sts.example.com");
    let text = request("mta-sts.example.com");
    assert!(text.starts_with("GET /.well-known/mta-sts.txt HTTP/1.1\r\nHost: mta-sts.example.com\r\n"));
    assert!(text.ends_with("\r\n\r\n"));
    assert!(matches!(no_address("h"), NetworkError::Resolve { .. }));
}

// ---------------------------------------------------------------------------
// Policies
// ---------------------------------------------------------------------------

#[test]
fn parses_a_full_enforce_policy() {
    let body = "version: STSv1\r\nmode: enforce\r\nmx: mail.example.com\r\nmx: *.example.net\r\nmax_age: 604800\r\n";
    let p = MtaStsPolicy::parse(body).unwrap();
    assert_eq!(p.mode, MtaStsMode::Enforce);
    assert_eq!(p.max_age, 604800);
    assert_eq!(p.mx, vec!["mail.example.com", "*.example.net"]);
}

#[test]
fn parses_lf_only_and_ignores_unknown_keys() {
    let body = "version: STSv1\nmode: testing\nmx: mx.example.com\nmax_age: 86400\nfuture-key: whatever\n";
    let p = MtaStsPolicy::parse(body).unwrap();
    assert_eq!(p.mode, MtaStsMode::Testing);
    assert_eq!(p.max_age, 86400);
}

#[test]
fn max_age_is_clamped_to_the_cap() {
    let body = "version: STSv1\nmode: none\nmax_age: 999999999999\n";
    let p = MtaStsPolicy::parse(body).unwrap();
    assert_eq!(p.max_age, MAX_AGE_CAP);
}

#[test]
fn mode_none_needs_no_mx() {
    let body = "version: STSv1\nmode: none\nmax_age: 0\n";
    assert!(MtaStsPolicy::parse(body).is_ok());
}

#[test]
fn enforce_without_mx_is_rejected() {
    let body = "version: STSv1\nmode: enforce\nmax_age: 100\n";
    assert!(MtaStsPolicy::parse(body).is_err());
}

#[test]
fn missing_version_is_rejected() {
    let body = "mode: enforce\nmx: mx.example.com\nmax_age: 100\n";
    assert!(MtaStsPolicy::parse(body).is_err());
}

#[test]
fn unknown_mode_is_rejected() {
    let body = "version: STSv1\nmode: paranoid\nmx: m\nmax_age: 100\n";
    assert!(MtaStsPolicy::parse(body).is_err());
}

#[test]
fn missing_max_age_is_rejected() {
    assert!(MtaStsPolicy::parse("version: STSv1\nmode: none\n").is_err());
    assert!(MtaStsPolicy::parse("version: STSv1\nmode: none\nmax_age: soon\n").is_err());
}

#[test]
fn exact_mx_matches_case_insensitively() {
    let p = MtaStsPolicy {
        mode: MtaStsMode::Enforce,
        mx: vec!["mail.example.com".into()],
        max_age: 100,
    };
    assert!(p.allows_mx("MAIL.EXAMPLE.COM"));
    assert!(p.allows_mx("mail.example.com."));
    assert!(!p.allows_mx("other.example.com"));
}

#[test]
fn wildcard_mx_matches_exactly_one_label() {
    let p = MtaStsPolicy {
        mode: MtaStsMode::Enforce,
        mx: vec!["*.example.com".into()],
        max_age: 100,
    };
    assert!(p.allows_mx("mx1.example.com"));
    assert!(p.allows_mx("mx2.EXAMPLE.com"));
    // The wildcard must not match the bare apex or a multi-label host.
    assert!(!p.allows_mx("example.com"));
    assert!(!p.allows_mx("a.b.example.com"));
    // Nor a non-empty label over a different suffix.
    assert!(!p.allows_mx("mx.example.net"));
}

#[test]
fn pattern_case_does_not_matter() {
    let p = MtaStsPolicy {
        mode: MtaStsMode::Enforce,
        mx: vec!["Mail.Example.com".into(), "*.Example.NET".into()],
        max_age: 100,
    };
    assert!(p.allows_mx("mail.example.com"));
    assert!(p.allows_mx("mx.example.net"));
}

#[test]
fn parses_discovery_txt_id() {
    assert_eq!(
        parse_sts_txt("v=STSv1; id=20160831085700Z;"),
        Some("20160831085700Z".to_string())
    );
    assert_eq!(
        parse_sts_txt("v=STSv1; id=abc123"),
        Some("abc123".to_string())
    );
}

#[test]
fn rejects_txt_without_version_or_with_bad_id() {
    assert_eq!(parse_sts_txt("id=abc123"), None);
    assert_eq!(parse_sts_txt("v=STSv1; id="), None);
    // id with a non-alphanumeric char is malformed.
    assert_eq!(parse_sts_txt("v=STSv1; id=ab.cd"), None);
    // id longer than 32 chars is malformed.
    let long = "a".repeat(33);
    assert_eq!(parse_sts_txt(&format!("v=STSv1; id={long}")), None);
}

// ---------------------------------------------------------------------------
// Cache
// ---------------------------------------------------------------------------

fn at(secs: u64) -> Timestamp {
    Timestamp::from_secs(secs)
}

fn policy(max_age: u64) -> MtaStsPolicy {
    MtaStsPolicy {
        mode: MtaStsMode::Enforce,
        mx: vec!["mx.example.com".into()],
        max_age,
    }
}

#[test]
fn no_discovery_txt_is_negative_cached() {
    let mut sts = MtaStsResolver::new().unwrap();
    let id = discover_id(&vec![]);
    assert_eq!(id, None);
    assert!(matches!(sts.policy_for("example.com", &id, at(0)), Lookup::Known(None)));
    assert_eq!(sts.len(), 1);
    // A second call within the negative window reuses the cache entry.
    assert!(matches!(sts.policy_for("example.com", &id, at(1)), Lookup::Known(None)));
    assert_eq!(sts.len(), 1);
}

#[test]
fn fetch_failure_with_no_cache_is_none() {
    // Discovery finds a valid id, but the fetch fails: with nothing cached, the domain
    // is treated as policy-free.
    let mut sts = MtaStsResolver::new().unwrap();
    let id = discover_id(&vec![TxtRecord("v=STSv1; id=abc123".to_string())]);
    assert!(matches!(sts.policy_for("example.com", &id, at(0)), Lookup::Fetch));
    assert!(sts.finish_fetch("example.com", id.unwrap(), None, at(0)).is_none());
}

#[test]
fn cache_evicts_oldest_when_full() {
    let mut sts = MtaStsResolver::new().unwrap();
    for i in 0..(MAX_CACHE + 10) {
        sts.store(
            format!("d{i}.example"),
            CacheEntry {
                id: None,
                policy: None,
                fetched: at(i as u64),
                ttl: Duration::from_secs(NEGATIVE_TTL_SECS),
            },
        );
    }
    assert!(sts.len() <= MAX_CACHE);
    assert_eq!(sts.len(), MAX_CACHE);
    assert!(!sts.is_empty());
}

#[test]
fn fetched_policy_is_reused_until_it_expires() {
    let mut sts = MtaStsResolver::new().unwrap();
    let id = Some("abc".to_string());
    assert!(matches!(sts.policy_for("Example.com.", &id, at(0)), Lookup::Fetch));
    let fetched = sts.finish_fetch("Example.com.", "abc".to_string(), Some(policy(100)), at(0));
    assert_eq!(fetched, Some(policy(100)));
    match sts.policy_for("example.com", &id, at(99)) {
        Lookup::Known(p) => assert_eq!(p, Some(policy(100))),
        Lookup::Fetch => panic!("a fresh policy is answered from the cache"),
    }
    assert!(matches!(sts.policy_for("example.com", &id, at(100)), Lookup::Fetch));
}

#[test]
fn changed_id_is_fetched_again() {
    let mut sts = MtaStsResolver::new().unwrap();
    sts.finish_fetch("example.com", "one".to_string(), Some(policy(100)), at(0));
    let two = Some("two".to_string());
    assert!(matches!(sts.policy_for("example.com", &two, at(1)), Lookup::Fetch));
    // Where that fetch fails, the cached policy keeps applying.
    assert_eq!(
        sts.finish_fetch("example.com", "two".to_string(), None, at(1)),
        Some(policy(100))
    );
}

#[test]
fn failed_fetch_is_remembered_for_the_negative_window() {
    let mut sts = MtaStsResolver::new().unwrap();
    let id = Some("abc".to_string());
    assert!(sts.finish_fetch("example.com", "abc".to_string(), None, at(0)).is_none());
    assert!(matches!(
        sts.policy_for("example.com", &id, at(NEGATIVE_TTL_SECS - 1)),
        Lookup::Known(None)
    ));
    assert!(matches!(
        sts.policy_for("example.com", &id, at(NEGATIVE_TTL_SECS)),
        Lookup::Fetch
    ));
}

#[test]
fn discovery_goes_by_the_plain_domain() {
    assert_eq!(normalize("Example.COM."), "example.com");
    assert_eq!(discovery_name("example.com"), "_mta-sts.example.com");
    let txts = vec![
        TxtRecord("v=spf1 -all".to_string()),
        TxtRecord("v=STSv1; id=a1".to_string()),
    ];
    assert_eq!(discover_id(&txts), Some("a1".to_string()));
}

#[test]
fn resolver_keeps_its_pkix_configuration() {
    let mut sts = MtaStsResolver::new().unwrap();
    assert!(sts.is_empty());
    let pkix = sts.pkix_config().clone();
    sts.policy_for("example.com", &None, at(0));
    sts.finish_fetch("example.org", "1".to_string(), Some(policy(60)), at(1));
    assert_eq!(sts.len(), 2);
    assert!(std::sync::Arc::ptr_eq(&pkix, sts.pkix_config()));
}

#[test]
fn unknown_keys_and_line_ends_do_not_count() {
    let bodies = [
        "version: STSv1\r\nmode: enforce\r\nmx: *.example.com\r\nmax_age: 60\r\n",
        "version: STSv1\nmode: none\r\nmax_age: 60\r",
        "version: STSv1\r\r\nmode: testing\nmx: m\nmax_age: 1",
    ];
    for body in bodies {
        let policy = MtaStsPolicy::parse(body).unwrap();
        let longer = format!("{body}\nfuture-key: whatever\n");
        assert_eq!(MtaStsPolicy::parse(&longer).unwrap(), policy);
        let unix = body.replace("\r\n", "\n");
        assert_eq!(MtaStsPolicy::parse(&unix).unwrap(), policy);
    }
    assert!(MtaStsPolicy::parse("").is_err());
    assert!(MtaStsPolicy::parse("\nfuture-key: whatever\n").is_err());
}
