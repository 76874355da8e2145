use uprs::connector::{ConnectPhase, FetchError, HttpsClient, HttpsConnector};
use uprs::uri::Destination;

fn secure_dest(host: &str, port: Option<u16>) -> Destination {
    Destination { scheme: String::from("https"), host: String::from(host), port }
}

#[test]
fn test_https_connector_fails_for_non_https() {
    let mut client = HttpsClient::new();
    let result = client.get("http://google.com");
    assert!(matches!(result, Err(FetchError::Scheme)));
}

#[test]
fn scheme_error_before_any_transport_work() {
    let mut connector = HttpsConnector::new();
    let insecure = Destination {
        scheme: String::from("http"),
        host: String::from("example.com"),
        port: None,
    };
    let r = connector.connect(&insecure);
    // No dial plan exists, so no transport operation can even be attempted,
    // and the attempt is over.
    assert_eq!(r, Err(FetchError::Scheme));
    assert_eq!(connector.phase, ConnectPhase::Failed);
}

#[test]
fn connect_hands_out_dial_plan() {
    let mut connector = HttpsConnector::new();
    let r = connector.connect(&secure_dest("example.com", Some(8443))).unwrap();
    assert_eq!(r.authority, "example.com:8443");
    assert_eq!(r.sni_host, "example.com");
    assert_eq!(connector.phase, ConnectPhase::Dialing);
}

#[test]
fn stages_run_in_order_to_connected() {
    let mut connector = HttpsConnector::new();
    connector.connect(&secure_dest("example.com", None)).unwrap();
    assert_eq!(connector.transport_result(Ok(())), None);
    assert_eq!(connector.phase, ConnectPhase::Handshaking);
    assert_eq!(connector.handshake_result(Ok(())), None);
    assert_eq!(connector.phase, ConnectPhase::Connected);
}

#[test]
fn transport_failure_short_circuits() {
    let mut connector = HttpsConnector::new();
    connector.connect(&secure_dest("example.com", None)).unwrap();
    let e = connector.transport_result(Err(String::from("connection refused")));
    assert_eq!(e, Some(FetchError::Transport(String::from("connection refused"))));
    assert_eq!(connector.phase, ConnectPhase::Failed);
}

#[test]
fn handshake_failure_is_a_tls_error() {
    let mut connector = HttpsConnector::new();
    connector.connect(&secure_dest("untrusted.example", None)).unwrap();
    assert_eq!(connector.transport_result(Ok(())), None);
    let e = connector.handshake_result(Err(String::from("certificate not trusted")));
    assert_eq!(e, Some(FetchError::Tls(String::from("certificate not trusted"))));
    assert_eq!(connector.phase, ConnectPhase::Failed);
}

#[test]
fn client_get_classifies_pre_io_errors() {
    let mut client = HttpsClient::new();
    assert_eq!(client.get("not a uri"), Err(FetchError::UriParse));
    let mut client2 = HttpsClient::new();
    assert_eq!(client2.get("http://example.com"), Err(FetchError::Scheme));
    let mut client3 = HttpsClient::new();
    let plan = client3.get("https://google.com").unwrap();
    assert_eq!(plan.authority, "google.com");
    assert_eq!(plan.sni_host, "google.com");
    assert_eq!(client3.connector.phase, ConnectPhase::Dialing);
}
