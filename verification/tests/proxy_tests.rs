use round_robin_proxy::proxy::{
    no_healthy_backends_response, prepare_forward, probe_is_healthy, proxy_error_response,
    remove_hop_by_hop_headers, Header,
};
use round_robin_proxy::uri::{build_probe_uri, build_target_uri};

fn header(name: &str, value: &str) -> Header {
    Header { name: name.to_string(), value: value.to_string() }
}

#[test]
fn strips_exactly_the_seven_hop_by_hop_headers() {
    let headers = vec![
        header("host", "example.com"),
        header("connection", "keep-alive"),
        header("proxy-authenticate", "Basic"),
        header("proxy-authorization", "credentials"),
        header("te", "trailers"),
        header("trailer", "expires"),
        header("transfer-encoding", "chunked"),
        header("upgrade", "h2c"),
        header("authorization", "Bearer token"),
        header("cookie", "a=b; c=d"),
        header("x-custom", "kept verbatim"),
    ];
    let kept = remove_hop_by_hop_headers(&headers);
    let kept_pairs: Vec<(String, String)> =
        kept.into_iter().map(|h| (h.name, h.value)).collect();
    assert_eq!(
        kept_pairs,
        vec![
            ("host".to_string(), "example.com".to_string()),
            ("authorization".to_string(), "Bearer token".to_string()),
            ("cookie".to_string(), "a=b; c=d".to_string()),
            ("x-custom".to_string(), "kept verbatim".to_string()),
        ]
    );
}

#[test]
fn strips_hop_by_hop_headers_whatever_their_casing() {
    let headers = vec![
        header("Connection", "keep-alive"),
        header("Host", "example.com"),
        header("Transfer-Encoding", "chunked"),
        header("UPGRADE", "h2c"),
        header("Proxy-Authorization", "credentials"),
        header("TE", "trailers"),
        header("X-Custom", "kept"),
    ];
    let kept = remove_hop_by_hop_headers(&headers);
    let kept_names: Vec<String> = kept.iter().map(|h| h.name.clone()).collect();
    assert_eq!(kept_names, vec!["Host".to_string(), "X-Custom".to_string()]);
    assert_eq!(kept[0].value, "example.com");
    assert_eq!(kept[1].value, "kept");
}

#[test]
fn strip_on_empty_header_list_is_empty() {
    let kept = remove_hop_by_hop_headers(&Vec::new());
    assert!(kept.is_empty());
}

#[test]
fn probe_status_200_is_healthy_everything_else_is_not() {
    assert!(probe_is_healthy(Some(200)));
    assert!(!probe_is_healthy(Some(201)));
    assert!(!probe_is_healthy(Some(301)));
    assert!(!probe_is_healthy(Some(404)));
    assert!(!probe_is_healthy(Some(500)));
    // transport error or timeout: no status at all
    assert!(!probe_is_healthy(None));
}

#[test]
fn target_uri_preserves_path_and_query_verbatim() {
    let uri = build_target_uri("http://127.0.0.1:8080", Some("/api/v1/items?x=1&y=two"))
        .expect("valid target");
    assert_eq!(uri.host(), Some("127.0.0.1"));
    assert_eq!(uri.port_u16(), Some(8080));
    assert_eq!(uri.path(), "/api/v1/items");
    assert_eq!(uri.query(), Some("x=1&y=two"));
}

#[test]
fn target_uri_defaults_to_root_path() {
    let uri = build_target_uri("http://backend:3001", None).expect("valid target");
    assert_eq!(uri.host(), Some("backend"));
    assert_eq!(uri.port_u16(), Some(3001));
    assert_eq!(uri.path(), "/");
    assert_eq!(uri.query(), None);
}

#[test]
fn malformed_target_is_an_error() {
    assert!(build_target_uri("http://exa mple", None).is_err());
    assert!(build_target_uri("", None).is_ok());
    assert!(build_target_uri("http://a:1", Some("/ok path")).is_err());
}

#[test]
fn probe_uri_appends_health_check_path() {
    let uri = build_probe_uri("http://10.0.0.5:9000", "/health").expect("valid probe target");
    assert_eq!(uri.host(), Some("10.0.0.5"));
    assert_eq!(uri.port_u16(), Some(9000));
    assert_eq!(uri.path(), "/health");
}

#[test]
fn prepare_forward_builds_target_and_strips_headers() {
    let headers = vec![
        header("connection", "close"),
        header("host", "proxy.local"),
        header("accept", "*/*"),
    ];
    let plan = prepare_forward("http://b:2", Some("/p?q=1"), &headers).expect("valid plan");
    assert_eq!(plan.target.host(), Some("b"));
    assert_eq!(plan.target.path(), "/p");
    assert_eq!(plan.target.query(), Some("q=1"));
    let names: Vec<String> = plan.headers.iter().map(|h| h.name.clone()).collect();
    assert_eq!(names, vec!["host".to_string(), "accept".to_string()]);
}

#[test]
fn prepare_forward_surfaces_bad_target_as_error() {
    let err = prepare_forward("http://exa mple", None, &Vec::new());
    assert!(err.is_err());
}

#[test]
fn no_healthy_backends_maps_to_503_with_fixed_body() {
    let (status, body) = no_healthy_backends_response();
    assert_eq!(status, 503);
    assert_eq!(body, "No healthy backends available");
}

#[test]
fn forwarding_failure_maps_to_502_with_cause_in_body() {
    let (status, body) = proxy_error_response("connection refused");
    assert_eq!(status, 502);
    assert_eq!(body, "Proxy error: connection refused");
}
