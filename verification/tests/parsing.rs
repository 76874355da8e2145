use uprs::http::{compose_get_request, parse_status_line};
use uprs::uri::{parse_uri, u16_to_dec, Destination};

#[test]
fn parse_plain_https_uri() {
    let d = parse_uri("https://google.com").unwrap();
    assert_eq!(d.scheme, "https");
    assert_eq!(d.host, "google.com");
    assert_eq!(d.port, None);
}

#[test]
fn parse_uri_with_port_and_path() {
    let d = parse_uri("https://example.com:8443/path?q=1#frag").unwrap();
    assert_eq!(d.scheme, "https");
    assert_eq!(d.host, "example.com");
    assert_eq!(d.port, Some(8443));
}

#[test]
fn parse_keeps_insecure_scheme() {
    // The grammar accepts any scheme; refusing non-secure ones is the
    // connector's job.
    let d = parse_uri("http://example.com").unwrap();
    assert_eq!(d.scheme, "http");
    assert_eq!(d.host, "example.com");
}

#[test]
fn parse_port_bounds() {
    assert_eq!(parse_uri("https://h:65535").unwrap().port, Some(65535));
    assert_eq!(parse_uri("https://h:0").unwrap().port, Some(0));
    assert_eq!(parse_uri("https://h:007").unwrap().port, Some(7));
    assert!(parse_uri("https://h:65536").is_none());
    assert!(parse_uri("https://h:99999999999999999999").is_none());
}

#[test]
fn parse_rejects_malformed() {
    assert!(parse_uri("").is_none());
    assert!(parse_uri("nohost").is_none());
    assert!(parse_uri("https:/example.com").is_none());
    assert!(parse_uri("https://").is_none());
    assert!(parse_uri("https://:80").is_none());
    assert!(parse_uri("1https://x").is_none());
    assert!(parse_uri("https://h:").is_none());
    assert!(parse_uri("https://h:12x").is_none());
    assert!(parse_uri("/relative/path").is_none());
}

#[test]
fn authority_without_port_is_host_alone() {
    let d = Destination {
        scheme: String::from("https"),
        host: String::from("google.com"),
        port: None,
    };
    assert_eq!(d.authority(), "google.com");
}

#[test]
fn authority_with_port_appends_it() {
    let d = Destination {
        scheme: String::from("https"),
        host: String::from("example.com"),
        port: Some(8443),
    };
    assert_eq!(d.authority(), "example.com:8443");
    let e = Destination { scheme: String::from("https"), host: String::from("h"), port: Some(1) };
    assert_eq!(e.authority(), "h:1");
    let f = Destination {
        scheme: String::from("https"),
        host: String::from("h"),
        port: Some(65535),
    };
    assert_eq!(f.authority(), "h:65535");
}

#[test]
fn decimal_rendering() {
    assert_eq!(u16_to_dec(0), "0");
    assert_eq!(u16_to_dec(7), "7");
    assert_eq!(u16_to_dec(100), "100");
    assert_eq!(u16_to_dec(65535), "65535");
}

#[test]
fn status_line_accepts_ordinary_responses() {
    assert_eq!(parse_status_line("HTTP/1.1 200 OK"), Some(200));
    assert_eq!(parse_status_line("HTTP/1.1 404 Not Found"), Some(404));
    assert_eq!(parse_status_line("HTTP/1.0 301 Moved Permanently"), Some(301));
    assert_eq!(parse_status_line("HTTP/2 204"), Some(204));
}

#[test]
fn status_line_rejects_malformed() {
    assert_eq!(parse_status_line(""), None);
    assert_eq!(parse_status_line("HTP/1.1 200 OK"), None);
    assert_eq!(parse_status_line("http/1.1 200 OK"), None);
    assert_eq!(parse_status_line("HTTP/ 200"), None);
    assert_eq!(parse_status_line("HTTP/1.1 20"), None);
    assert_eq!(parse_status_line("HTTP/1.1 2000"), None);
    assert_eq!(parse_status_line("HTTP/1.1  200"), None);
    assert_eq!(parse_status_line("HTTP/1.1 abc"), None);
}

#[test]
fn get_request_text() {
    assert_eq!(
        compose_get_request("example.com"),
        "GET / HTTP/1.1\r\nHost: example.com\r\nConnection: close\r\n\r\n"
    );
}
