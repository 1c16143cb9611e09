use mapi_plugins::url_parts::{
    endpoint_shape, extract_corr_id, has_object_id, is_success, path_from_url, strip_fragment, tag_url,
    FRAGMENT_PREFIX,
};

#[test]
fn strip_fragment_removes_everything_from_hash() {
    assert_eq!(strip_fragment("http://h/a/b#mapi-idor-x"), "http://h/a/b");
    assert_eq!(strip_fragment("http://h/a#one#two"), "http://h/a");
    assert_eq!(strip_fragment("http://h/a"), "http://h/a");
    assert_eq!(strip_fragment(""), "");
}

#[test]
fn extract_corr_id_reads_prefixed_fragment() {
    assert_eq!(extract_corr_id("http://h/a#mapi-idor-abc123"), Some("abc123".to_string()));
    assert_eq!(extract_corr_id("http://h/a#mapi-idor-"), Some("".to_string()));
    assert_eq!(extract_corr_id("http://h/a#other"), None);
    assert_eq!(extract_corr_id("http://h/a#mapi-ido"), None);
    assert_eq!(extract_corr_id("http://h/a"), None);
    assert_eq!(extract_corr_id("http://h/a#x#mapi-idor-abc"), None);
}

#[test]
fn tag_url_round_trips_through_extract() {
    let tagged = tag_url("http://h/users/7?x=1", "0123456789abcdef0123456789abcdef");
    assert_eq!(tagged, format!("http://h/users/7?x=1#{}0123456789abcdef0123456789abcdef", FRAGMENT_PREFIX));
    assert_eq!(extract_corr_id(&tagged), Some("0123456789abcdef0123456789abcdef".to_string()));
    assert_eq!(strip_fragment(&tagged), "http://h/users/7?x=1");
    assert_eq!(path_from_url(&tagged), "/users/7");
}

#[test]
fn path_from_url_examples() {
    assert_eq!(path_from_url("https://api.example.com/v1/users/42?verbose=1#frag"), "/v1/users/42");
    assert_eq!(path_from_url("http://host:8080/a/b"), "/a/b");
    assert_eq!(path_from_url("http://host"), "");
    assert_eq!(path_from_url("http://host?q=/x"), "");
    assert_eq!(path_from_url("https://api.example.com?id=1"), "");
    assert_eq!(path_from_url("/plain/path?q=1"), "/plain/path");
    assert_eq!(path_from_url("relative"), "relative");
    assert_eq!(path_from_url("http://host/"), "/");
    assert_eq!(path_from_url("a://b://c/d"), "//c/d");
}

#[test]
fn is_success_is_the_2xx_range() {
    assert!(!is_success(199));
    assert!(is_success(200));
    assert!(is_success(204));
    assert!(is_success(299));
    assert!(!is_success(300));
    assert!(!is_success(404));
    assert!(!is_success(0));
}

#[test]
fn has_object_id_needs_two_segments() {
    assert!(has_object_id("/collection/42"));
    assert!(has_object_id("/a/b/c"));
    assert!(has_object_id("a//b"));
    assert!(!has_object_id("/health"));
    assert!(!has_object_id("/"));
    assert!(!has_object_id(""));
    assert!(!has_object_id("//x//"));
}

#[test]
fn endpoint_shape_replaces_last_segment() {
    assert_eq!(endpoint_shape("get", "/driver/admin"), ("GET".to_string(), "/driver/*".to_string()));
    assert_eq!(endpoint_shape("Delete", "/users/7/orders/9"), ("DELETE".to_string(), "/users/7/orders/*".to_string()));
    assert_eq!(endpoint_shape("get", "//a//b/"), ("GET".to_string(), "/a/*".to_string()));
    assert_eq!(endpoint_shape("GET", "/health"), ("GET".to_string(), "/health".to_string()));
    assert_eq!(endpoint_shape("put", ""), ("PUT".to_string(), "".to_string()));
}

#[test]
fn sibling_paths_share_a_shape() {
    assert_eq!(endpoint_shape("GET", "/driver/admin"), endpoint_shape("get", "/driver/someone-else"));
    assert_ne!(endpoint_shape("GET", "/users/1/profile"), endpoint_shape("GET", "/users/2/profile"));
}

#[test]
fn shape_of_a_shape_is_itself() {
    for path in ["/driver/admin", "/users/7/orders/9", "//a//b/", "/health", "", "/a/*"] {
        let (_, shape) = endpoint_shape("GET", path);
        let (_, again) = endpoint_shape("GET", &shape);
        assert_eq!(shape, again);
    }
}
