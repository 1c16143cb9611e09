use mapi_plugins::openid::{
    token_request_body, token_response_ok, try_parse_data_urlencode, try_parse_header, try_parse_header_name,
    HeaderArgError, TokenCache, NANOS_PER_SEC,
};

#[test]
fn data_urlencode_with_name() {
    assert_eq!(try_parse_data_urlencode("grant_type=client credentials"), "grant_type=client+credentials");
    assert_eq!(try_parse_data_urlencode("scope=a/b&c"), "scope=a%2Fb%26c");
    assert_eq!(try_parse_data_urlencode("k=v=w"), "k=v%3Dw");
}

#[test]
fn data_urlencode_without_name() {
    assert_eq!(try_parse_data_urlencode("=hello world"), "hello+world");
    assert_eq!(try_parse_data_urlencode("plain*-._~"), "plain*-._%7E");
    assert_eq!(try_parse_data_urlencode("é"), "%C3%A9");
    assert_eq!(try_parse_data_urlencode(""), "");
}

#[test]
fn token_body_joins_with_ampersand() {
    let data = vec!["a=1".to_string(), "b=2".to_string(), "c".to_string()];
    assert_eq!(token_request_body(&data), "a=1&b=2&c");
    assert_eq!(token_request_body(&vec![]), "");
}

#[test]
fn only_200_is_accepted() {
    assert!(token_response_ok(200));
    assert!(!token_response_ok(201));
    assert!(!token_response_ok(401));
}

#[test]
fn new_cache_needs_a_token() {
    let c = TokenCache::new();
    assert!(c.needs_refresh(0));
    assert!(c.needs_refresh(1_700_000_000 * NANOS_PER_SEC));
    assert!(c.auth_header("authorization", None).is_none());
}

#[test]
fn token_is_refreshed_at_half_its_lifetime() {
    let mut c = TokenCache::new();
    let now = 1_000 * NANOS_PER_SEC;
    c.record_token(now, "tok".to_string(), Some(100));
    assert!(!c.needs_refresh(now));
    assert!(!c.needs_refresh(now + 50 * NANOS_PER_SEC - 1));
    assert!(c.needs_refresh(now + 50 * NANOS_PER_SEC));
    c.record_token(now, "tok".to_string(), None);
    assert!(!c.needs_refresh(now + 30 * NANOS_PER_SEC - 1));
    assert!(c.needs_refresh(now + 30 * NANOS_PER_SEC));
    c.record_token(now, "tok".to_string(), Some(1));
    assert!(c.needs_refresh(now));
}

#[test]
fn auth_header_carries_prefix_and_token() {
    let mut c = TokenCache::new();
    c.record_token(0, "abc".to_string(), None);
    let h = c.auth_header("authorization", Some(b"Bearer ")).unwrap();
    assert_eq!(h.name, b"authorization".to_vec());
    assert_eq!(h.value, b"Bearer abc".to_vec());
    let h = c.auth_header("x-token", None).unwrap();
    assert_eq!(h.name, b"x-token".to_vec());
    assert_eq!(h.value, b"abc".to_vec());
}

#[test]
fn header_argument_is_split_and_trimmed() {
    let p = try_parse_header("X-Api-Key:   secret value").ok().unwrap();
    assert_eq!(p.name().text(), "x-api-key");
    assert_eq!(p.value().bytes(), &b"secret value".to_vec());
    assert_eq!(p.value().value().as_bytes(), b"secret value");
    assert_eq!(p.name().name().as_str(), "x-api-key");
    let p = try_parse_header("a:b:c").ok().unwrap();
    assert_eq!(p.name().text(), "a");
    assert_eq!(p.value().bytes(), &b"b:c".to_vec());
    let (n, v) = p.into_parts();
    assert_eq!(n.into_name().as_str(), "a");
    assert_eq!(v.into_value().as_bytes(), b"b:c");
}

#[test]
fn header_argument_errors() {
    assert!(matches!(try_parse_header("no colon here"), Err(HeaderArgError::MissingColon)));
    match try_parse_header("bad name: v") {
        Err(HeaderArgError::InvalidName { name }) => assert_eq!(name, "bad name"),
        _ => panic!("expected an invalid name"),
    }
    match try_parse_header(": v") {
        Err(HeaderArgError::InvalidName { name }) => assert_eq!(name, ""),
        _ => panic!("expected an invalid name"),
    }
    match try_parse_header("x: a\u{7f}b") {
        Err(HeaderArgError::InvalidValue { value }) => assert_eq!(value, "a\u{7f}b"),
        _ => panic!("expected an invalid value"),
    }
}

#[test]
fn header_name_is_lowercased() {
    let h = try_parse_header_name("Authorization").ok().unwrap();
    assert_eq!(h.text(), "authorization");
    assert_eq!(h.name().as_str(), "authorization");
    assert!(matches!(try_parse_header_name("a b"), Err(HeaderArgError::InvalidName { .. })));
}
