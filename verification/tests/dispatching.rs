use uprs::connector::FetchError;
use uprs::dispatch::{run_pass, run_site, ConnectorReply, Dispatch, Uprs};
use uprs::models::Request;
use uprs::settings::{Notifications, Settings, Site, SiteEntry, SlackNotification};

fn entry(name: &str, uri: &str, interval: usize) -> SiteEntry {
    SiteEntry {
        name: String::from(name),
        site: Site { uri: String::from(uri), interval },
    }
}

fn settings_with(sites: Vec<SiteEntry>) -> Settings {
    Settings::new(Notifications { slack: None }, Some(sites))
}

#[test]
fn poll_plans_one_task_per_site() {
    let sites = vec![
        entry("google", "https://google.com", 10),
        entry("digg", "https://digg.com", 10),
    ];
    let mut uprs = Uprs::new(settings_with(sites));
    match uprs.poll() {
        Dispatch::NoSites => panic!(),
        Dispatch::Tasks(tasks) => {
            assert_eq!(tasks.len(), 2);
            assert_eq!(tasks[0].name, "google");
            assert_eq!(tasks[0].uri, "https://google.com");
            assert_eq!(tasks[1].name, "digg");
            assert_eq!(tasks[1].uri, "https://digg.com");
        },
    }
}

#[test]
fn poll_consumes_the_sites() {
    let mut uprs = Uprs::new(settings_with(vec![entry("a", "https://a.example", 1)]));
    assert!(uprs.settings.sites.is_some());
    uprs.poll();
    assert!(uprs.settings.sites.is_none());
}

#[test]
fn empty_mapping_reports_no_sites() {
    let mut uprs = Uprs::new(settings_with(Vec::new()));
    assert!(matches!(uprs.poll(), Dispatch::NoSites));
    assert!(uprs.settings.sites.is_none());
}

#[test]
fn two_sites_both_succeed() {
    // Mapping {"google", "digg"} with a connector that always reports 200:
    // two outcomes, one per site, order following the mapping.
    let sites = vec![
        entry("google", "https://google.com", 10),
        entry("digg", "https://digg.com", 10),
    ];
    let mut uprs = Uprs::new(settings_with(sites));
    let tasks = match uprs.poll() {
        Dispatch::Tasks(tasks) => tasks,
        Dispatch::NoSites => panic!(),
    };
    let mut outcomes = Vec::new();
    for task in tasks {
        outcomes.push(run_site(task.name, task.uri.as_str(), ConnectorReply::Status(200)));
    }
    assert_eq!(outcomes.len(), 2);
    assert_eq!(outcomes[0].name, "google");
    assert_eq!(outcomes[0].result, Ok(200));
    assert_eq!(outcomes[1].name, "digg");
    assert_eq!(outcomes[1].result, Ok(200));
}

#[test]
fn insecure_site_reports_scheme_error_without_transport() {
    // Mapping {"bad": http://example.com}: the outcome is a scheme error and
    // the network events are never consulted.
    let mut uprs = Uprs::new(settings_with(vec![entry("bad", "http://example.com", 5)]));
    let tasks = match uprs.poll() {
        Dispatch::Tasks(tasks) => tasks,
        Dispatch::NoSites => panic!(),
    };
    assert_eq!(tasks.len(), 1);
    let o = run_site(
        tasks[0].name.clone(),
        tasks[0].uri.as_str(),
        ConnectorReply::Status(200),
    );
    assert_eq!(o.name, "bad");
    assert_eq!(o.result, Err(FetchError::Scheme));
}

#[test]
fn rejected_certificate_leaves_siblings_alone() {
    // One site behind an untrusted certificate fails with a TLS error; the
    // sibling's outcome is what it would have been anyway.
    let shaky = run_site(
        String::from("shaky"),
        "https://untrusted.example",
        ConnectorReply::TlsFailed(String::from("certificate not trusted")),
    );
    assert_eq!(shaky.name, "shaky");
    assert_eq!(
        shaky.result,
        Err(FetchError::Tls(String::from("certificate not trusted")))
    );
    let steady = run_site(
        String::from("steady"),
        "https://google.com",
        ConnectorReply::Status(200),
    );
    assert_eq!(steady.name, "steady");
    assert_eq!(steady.result, Ok(200));
}

#[test]
fn transport_and_protocol_failures_are_tagged() {
    let t = run_site(
        String::from("down"),
        "https://down.example",
        ConnectorReply::TransportFailed(String::from("connection refused")),
    );
    assert_eq!(t.result, Err(FetchError::Transport(String::from("connection refused"))));
    let h = run_site(
        String::from("flaky"),
        "https://flaky.example",
        ConnectorReply::HttpFailed(String::from("connection reset mid-response")),
    );
    assert_eq!(
        h.result,
        Err(FetchError::HttpProtocol(String::from("connection reset mid-response")))
    );
    let p = run_site(String::from("odd"), "not a uri", ConnectorReply::Status(200));
    assert_eq!(p.result, Err(FetchError::UriParse));
}

#[test]
fn site_name_survives_verbatim() {
    let name = "name with spaces & symbols: \u{e9}\u{4e16}!";
    let o = run_site(String::from(name), "https://example.com", ConnectorReply::Status(204));
    assert_eq!(o.name, name);
    assert_eq!(o.result, Ok(204));
}

#[test]
fn whole_pass_mixes_outcomes_independently() {
    let sites = vec![
        entry("google", "https://google.com", 10),
        entry("bad", "http://example.com", 5),
        entry("digg", "https://digg.com", 10),
    ];
    let replies = vec![
        ConnectorReply::Status(200),
        ConnectorReply::Status(200),
        ConnectorReply::TlsFailed(String::from("certificate not trusted")),
    ];
    let outs = run_pass(sites, replies);
    assert_eq!(outs.len(), 3);
    assert_eq!(outs[0].name, "google");
    assert_eq!(outs[0].result, Ok(200));
    assert_eq!(outs[1].name, "bad");
    assert_eq!(outs[1].result, Err(FetchError::Scheme));
    assert_eq!(outs[2].name, "digg");
    assert_eq!(
        outs[2].result,
        Err(FetchError::Tls(String::from("certificate not trusted")))
    );
}

#[test]
fn settings_compose_verbatim() {
    let settings = Settings::new(
        Notifications {
            slack: Some(SlackNotification {
                api_key: String::from("sdfk3oasdfsadfkj239dsdff"),
                channel: String::from("#devops"),
            }),
        },
        Some(vec![entry("google", "https://google.com", 10)]),
    );
    assert_eq!(
        settings.notifications,
        Notifications {
            slack: Some(SlackNotification {
                api_key: String::from("sdfk3oasdfsadfkj239dsdff"),
                channel: String::from("#devops"),
            }),
        }
    );
    let sites = settings.sites.unwrap();
    assert_eq!(sites.len(), 1);
    assert_eq!(sites[0], entry("google", "https://google.com", 10));
}

#[test]
fn request_record_holds_one_fetch() {
    let r = Request {
        id: 1,
        name: String::from("google"),
        uri: String::from("https://google.com"),
        response_status_code: String::from("200"),
        success: true,
    };
    assert_eq!(r.name, "google");
    assert!(r.success);
}
