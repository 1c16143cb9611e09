use mapi_plugins::headers::HeaderField;
use mapi_plugins::idor::{
    check_identities, entry_is_fresh, issue_summary_text, Identity, PluginState, RewriteDecision, SideChannelResult, StashEntry,
    Verdict, CANARY_LABEL,
};

fn state(rate: u64) -> PluginState {
    PluginState::new(
        vec!["GET".to_string(), "PUT".to_string(), "DELETE".to_string()],
        rate,
        "Authorization".to_string(),
        vec![
            Identity { label: "user_b".to_string(), header: "Authorization".to_string(), value: "Bearer b".to_string() },
            Identity { label: "key".to_string(), header: "X-Api-Key".to_string(), value: "".to_string() },
        ],
    )
}

fn result(label: &str, status: u16, body_len: usize) -> SideChannelResult {
    SideChannelResult { label: label.to_string(), status, body_len }
}

fn entry(method: &str, path: &str, canary: SideChannelResult, alts: Vec<SideChannelResult>) -> StashEntry {
    StashEntry { method: method.to_string(), path: path.to_string(), canary, alts, stored_at: 0 }
}

fn is_probe(d: &RewriteDecision) -> bool {
    matches!(d, RewriteDecision::Probe { .. })
}

#[test]
fn filters_pass_requests_through() {
    let mut s = state(1);
    assert!(!is_probe(&s.begin_rewrite("POST", "http://h/users/7")));
    assert!(!is_probe(&s.begin_rewrite("GET", "http://h/health")));
    match s.begin_rewrite("get", "http://h/users/7?x=1") {
        RewriteDecision::Probe { path } => assert_eq!(path, "/users/7"),
        RewriteDecision::PassThrough => panic!("expected a probe"),
    }
}

#[test]
fn one_in_rate_is_sampled() {
    let mut s = state(3);
    let probes: Vec<bool> = (0..7).map(|_| is_probe(&s.begin_rewrite("GET", "http://h/users/7"))).collect();
    assert_eq!(probes, vec![true, false, false, true, false, false, true]);
    // Requests that the filters stop do not count.
    let mut s = state(2);
    assert!(is_probe(&s.begin_rewrite("GET", "http://h/a/1")));
    assert!(!is_probe(&s.begin_rewrite("POST", "http://h/a/1")));
    assert!(!is_probe(&s.begin_rewrite("GET", "http://h/a/1")));
    assert!(is_probe(&s.begin_rewrite("GET", "http://h/a/1")));
}

#[test]
fn rate_zero_probes_everything() {
    let mut s = state(0);
    for _ in 0..5 {
        assert!(is_probe(&s.begin_rewrite("DELETE", "http://h/a/1")));
    }
}

#[test]
fn plan_strips_canary_header_and_swaps_identities() {
    let s = state(1);
    let headers = vec![
        HeaderField { name: b"authorization".to_vec(), value: b"Bearer primary".to_vec() },
        HeaderField { name: b"Accept".to_vec(), value: b"*/*".to_vec() },
        HeaderField { name: b"X-API-KEY".to_vec(), value: b"primary-key".to_vec() },
    ];
    let plan = s.plan_side_channels("GET", "http://h/users/7#frag", &headers, &vec![]).unwrap();
    assert_eq!(plan.method.text(), "GET");
    assert_eq!(plan.method.method().as_str(), "GET");
    assert_eq!(plan.url, "http://h/users/7");
    assert!(plan.body.is_none());
    assert_eq!(plan.canary.label, CANARY_LABEL);
    let names: Vec<&str> = plan.canary.headers.iter().map(|h| h.name.as_str()).collect();
    assert_eq!(names, vec!["Accept", "X-API-KEY"]);
    assert_eq!(plan.alts.len(), 2);
    assert_eq!(plan.alts[0].label, "user_b");
    let h: Vec<(&str, &[u8])> = plan.alts[0].headers.iter().map(|h| (h.name.as_str(), h.value.as_slice())).collect();
    assert_eq!(h, vec![("Accept", &b"*/*"[..]), ("X-API-KEY", &b"primary-key"[..]), ("Authorization", &b"Bearer b"[..])]);
    // An empty value drops the header and sends no replacement.
    let names: Vec<&str> = plan.alts[1].headers.iter().map(|h| h.name.as_str()).collect();
    assert_eq!(names, vec!["authorization", "Accept"]);
}

#[test]
fn plan_reads_header_names_as_lossy_utf8_and_keeps_body() {
    let s = state(1);
    let headers = vec![HeaderField { name: vec![0x61, 0xff], value: b"v".to_vec() }];
    let plan = s.plan_side_channels("PUT", "http://h/a/1", &headers, &b"{}".to_vec()).unwrap();
    assert_eq!(plan.canary.headers[0].name, "a\u{fffd}");
    assert_eq!(plan.body, Some(b"{}".to_vec()));
}

#[test]
fn plan_refuses_invalid_method() {
    let s = state(1);
    assert!(s.plan_side_channels("GE T", "http://h/a/1", &vec![], &vec![]).is_none());
    assert!(s.plan_side_channels("", "http://h/a/1", &vec![], &vec![]).is_none());
    let plan = s.plan_side_channels("purge", "http://h/a/1", &vec![], &vec![]).unwrap();
    assert_eq!(plan.method.text(), "purge");
    assert_eq!(plan.method.method().as_str(), "purge");
}

#[test]
fn finish_then_take_returns_the_entry_once() {
    let mut s = state(1);
    let t = s.finish_rewrite(
        "http://h/users/7",
        "GET".to_string(),
        "/users/7".to_string(),
        result(CANARY_LABEL, 401, 10),
        vec![result("user_b", 200, 100)],
        5,
    );
    assert_eq!(t.corr_id.len(), 32);
    assert!(t.corr_id.chars().all(|c| c.is_ascii_digit() || ('a'..='f').contains(&c)));
    assert_eq!(t.url, format!("http://h/users/7#mapi-idor-{}", t.corr_id));
    let e = s.take_entry(&t.url).unwrap();
    assert_eq!(e.path, "/users/7");
    assert_eq!(e.alts[0].status, 200);
    assert!(s.take_entry(&t.url).is_none());
    assert!(s.take_entry("http://h/users/7").is_none());
}

#[test]
fn classify_reports_matching_alternates() {
    let mut s = state(1);
    let e = entry(
        "GET",
        "/driver/admin",
        result(CANARY_LABEL, 401, 20),
        vec![result("user_b", 200, 100), result("key", 403, 100), result("other", 200, 5)],
    );
    let c = s.classify_entry(&e, 200, false, &vec![true, true, false]);
    assert!(matches!(c.verdict, Verdict::Checked));
    assert_eq!(c.shape, ("GET".to_string(), "/driver/*".to_string()));
    assert_eq!(c.findings.len(), 1);
    assert_eq!(c.findings[0].alt, 0);
    assert_eq!(c.findings[0].summary, "IDOR/BOLA: 'user_b' returned HTTP 200 on GET /driver/*");
    // A flagged shape is blocklisted: its siblings are not probed again.
    assert!(!is_probe(&s.begin_rewrite("GET", "http://h/driver/someone")));
    assert!(is_probe(&s.begin_rewrite("GET", "http://h/riders/1")));
    // The alternate must get the original's status.
    let c = s.classify_entry(&e, 201, false, &vec![true, true, true]);
    assert_eq!(c.findings.len(), 0);
}

#[test]
fn checked_without_findings_is_not_blocklisted() {
    let mut s = state(1);
    let e = entry("GET", "/driver/admin", result(CANARY_LABEL, 401, 20), vec![result("user_b", 403, 10)]);
    let c = s.classify_entry(&e, 200, false, &vec![true]);
    assert!(matches!(c.verdict, Verdict::Checked));
    assert!(c.findings.is_empty());
    assert!(is_probe(&s.begin_rewrite("GET", "http://h/driver/admin")));
}

#[test]
fn url_without_path_passes_through() {
    let mut s = state(1);
    assert!(!is_probe(&s.begin_rewrite("GET", "https://api.example.com?id=1")));
    assert!(!is_probe(&s.begin_rewrite("GET", "https://api.example.com")));
    assert!(is_probe(&s.begin_rewrite("GET", "https://api.example.com/users/1")));
}

#[test]
fn empty_identities_are_refused_with_message() {
    match check_identities(vec![]) {
        Err(e) => assert_eq!(e.message(), "identities file is empty"),
        Ok(_) => panic!("expected a refusal"),
    }
    let ids = vec![Identity { label: "a".to_string(), header: "h".to_string(), value: "v".to_string() }];
    assert_eq!(check_identities(ids).ok().unwrap().len(), 1);
}

#[test]
fn classify_ignores_failed_originals() {
    let mut s = state(1);
    let e = entry("GET", "/a/1", result(CANARY_LABEL, 200, 10), vec![result("user_b", 404, 10)]);
    let c = s.classify_entry(&e, 404, true, &vec![true]);
    assert!(matches!(c.verdict, Verdict::NotSuccess));
    assert!(c.findings.is_empty());
}

#[test]
fn public_endpoint_is_blocklisted_for_all_siblings() {
    let mut s = state(1);
    let e = entry("get", "/driver/admin", result(CANARY_LABEL, 200, 100), vec![result("user_b", 200, 100)]);
    let c = s.classify_entry(&e, 200, true, &vec![true]);
    assert!(matches!(c.verdict, Verdict::PublicEndpoint));
    assert!(c.findings.is_empty());
    assert!(!is_probe(&s.begin_rewrite("GET", "http://h/driver/other")));
    assert!(!is_probe(&s.begin_rewrite("get", "http://h/driver/admin")));
    assert!(is_probe(&s.begin_rewrite("GET", "http://h/riders/1")));
}

#[test]
fn masked_error_is_not_blocklisted() {
    let mut s = state(1);
    let e = entry("GET", "/driver/admin", result(CANARY_LABEL, 404, 100), vec![result("user_b", 200, 100)]);
    let c = s.classify_entry(&e, 200, true, &vec![true]);
    assert!(matches!(c.verdict, Verdict::MaskedError));
    assert!(c.findings.is_empty());
    assert!(is_probe(&s.begin_rewrite("GET", "http://h/driver/admin")));
}

#[test]
fn summary_text_format() {
    let shape = ("PUT".to_string(), "/a/*".to_string());
    assert_eq!(issue_summary_text("x", 7, &shape), "IDOR/BOLA: 'x' returned HTTP 7 on PUT /a/*");
    assert_eq!(issue_summary_text("", 65535, &shape), "IDOR/BOLA: '' returned HTTP 65535 on PUT /a/*");
}

#[test]
fn eviction_keeps_fresh_entries() {
    let mut s = state(1);
    let t1 = s.finish_rewrite("http://h/a/1", "GET".into(), "/a/1".into(), result(CANARY_LABEL, 0, 0), vec![], 100);
    let t2 = s.finish_rewrite("http://h/a/2", "GET".into(), "/a/2".into(), result(CANARY_LABEL, 0, 0), vec![], 150);
    s.evict_expired(200, 60);
    assert!(s.take_entry(&t1.url).is_none());
    assert!(s.take_entry(&t2.url).is_some());
    let e = entry("GET", "/a/1", result(CANARY_LABEL, 0, 0), vec![]);
    assert!(entry_is_fresh(&e, 59, 60));
    assert!(!entry_is_fresh(&e, 60, 60));
    let later = StashEntry { stored_at: 500, ..e };
    assert!(entry_is_fresh(&later, 10, 1));
}
