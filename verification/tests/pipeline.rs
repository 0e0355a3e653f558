//! The resolver's fallback order, the update URL, configuration list
//! cleaning, and the plan of one polling cycle.

use namecheap_ddns::config::parse_list;
use namecheap_ddns::cycle::{classify_cycle, plan_cycle, CycleStep};
use namecheap_ddns::interpret::{interpret_response, UpdateOutcome};
use namecheap_ddns::request::build_update_url;
use namecheap_ddns::resolver::{classify_outcome, resolve, FetchOutcome};

fn body(text: &str) -> FetchOutcome {
    FetchOutcome::Body { text: text.to_string() }
}

fn endpoints(names: &[&str]) -> Vec<String> {
    names.iter().map(|n| n.to_string()).collect()
}

#[test]
fn classify_accepts_only_valid_trimmed_bodies() {
    assert_eq!(classify_outcome(&body("  1.2.3.4\n")), Some("1.2.3.4".to_string()));
    assert_eq!(classify_outcome(&body("<html>nope</html>")), None);
    assert_eq!(classify_outcome(&body("2001:db8::1")), None);
    assert_eq!(classify_outcome(&FetchOutcome::TransportFailed), None);
    assert_eq!(classify_outcome(&FetchOutcome::BadStatus { status: 503 }), None);
}

#[test]
fn first_valid_answer_wins_and_stops_the_scan() {
    let eps = endpoints(&["https://a", "https://b", "https://c", "https://d"]);
    let outs = vec![
        FetchOutcome::TransportFailed,
        body("<html>not an ip</html>"),
        body("5.6.7.8\n"),
        body("9.9.9.9"),
    ];
    let r = resolve(&eps, &outs);
    assert_eq!(r.ip, Some("5.6.7.8".to_string()));
    assert_eq!(
        r.contacted,
        endpoints(&["https://a", "https://b", "https://c"])
    );
}

#[test]
fn exhausting_every_endpoint_signals_failure() {
    let eps = endpoints(&["https://a", "https://b", "https://c"]);
    let outs = vec![
        FetchOutcome::BadStatus { status: 500 },
        FetchOutcome::TransportFailed,
        body("not an address"),
    ];
    let r = resolve(&eps, &outs);
    assert_eq!(r.ip, None);
    assert_eq!(r.contacted, endpoints(&["https://a", "https://b", "https://c"]));
}

#[test]
fn empty_endpoint_entries_are_never_contacted() {
    let eps = endpoints(&["", "https://a", "", "https://b"]);
    let outs = vec![
        body("1.1.1.1"),
        FetchOutcome::TransportFailed,
        body("2.2.2.2"),
        body("3.3.3.3"),
    ];
    let r = resolve(&eps, &outs);
    assert_eq!(r.ip, Some("3.3.3.3".to_string()));
    assert_eq!(r.contacted, endpoints(&["https://a", "https://b"]));
}

#[test]
fn update_url_percent_encodes_every_value() {
    let url = build_update_url("@", "example.com", "p&ss=word w", "1.2.3.4");
    assert_eq!(
        url,
        "https://dynamicdns.park-your-domain.com/update\
         ?host=%40&domain=example.com&password=p%26ss%3Dword+w&ip=1.2.3.4"
    );
}

#[test]
fn update_url_keeps_plain_values_readable() {
    let url = build_update_url("www", "example.com", "secret", "10.0.0.1");
    assert_eq!(
        url,
        "https://dynamicdns.park-your-domain.com/update\
         ?host=www&domain=example.com&password=secret&ip=10.0.0.1"
    );
}

#[test]
fn update_url_encodes_multibyte_values_bytewise() {
    let url = build_update_url("www", "example.com", "pä ss", "1.2.3.4");
    assert_eq!(
        url,
        "https://dynamicdns.park-your-domain.com/update\
         ?host=www&domain=example.com&password=p%C3%A4+ss&ip=1.2.3.4"
    );
}

#[test]
fn configured_lists_are_trimmed_and_cleaned() {
    assert_eq!(parse_list(" a ,, b ,c "), vec!["a", "b", "c"]);
    assert_eq!(
        parse_list("https://ifconfig.me/ip,https://ipv4.icanhazip.com"),
        vec!["https://ifconfig.me/ip", "https://ipv4.icanhazip.com"]
    );
    assert_eq!(parse_list(""), Vec::<String>::new());
    assert_eq!(parse_list(" , ,"), Vec::<String>::new());
    assert_eq!(parse_list("www,@"), vec!["www", "@"]);
}

#[test]
fn configured_lists_drop_duplicates() {
    assert_eq!(parse_list("a,b,a"), vec!["a", "b"]);
    assert_eq!(parse_list("x, x ,y,x"), vec!["x", "y"]);
    assert_eq!(parse_list("a,a,a"), vec!["a"]);
}

#[test]
fn unchanged_address_plans_no_work() {
    let resolved = Some("1.2.3.4".to_string());
    assert!(matches!(classify_cycle(&resolved, "1.2.3.4\n"), CycleStep::Unchanged));
    let plan = plan_cycle(
        &resolved,
        "1.2.3.4\n",
        &endpoints(&["www", "@"]),
        "example.com",
        "secret",
    );
    assert!(plan.request_urls.is_empty());
    assert_eq!(plan.write_cache, None);
}

#[test]
fn failed_resolution_plans_no_work() {
    assert!(matches!(classify_cycle(&None, "1.2.3.4"), CycleStep::Skip));
    let plan = plan_cycle(&None, "1.2.3.4", &endpoints(&["www"]), "example.com", "secret");
    assert!(plan.request_urls.is_empty());
    assert_eq!(plan.write_cache, None);
}

#[test]
fn changed_address_updates_every_host_then_persists() {
    let resolved = Some("1.2.3.4".to_string());
    let plan = plan_cycle(
        &resolved,
        "5.6.7.8",
        &endpoints(&["www", "@"]),
        "example.com",
        "secret",
    );
    // Both hosts get a request, in order, whatever becomes of each attempt:
    // here the first host's reply is a failure and the second's a success,
    // and the plan still persists the new address afterwards.
    assert_eq!(plan.request_urls.len(), 2);
    assert!(plan.request_urls[0].contains("host=www"));
    assert!(plan.request_urls[1].contains("host=%40"));
    let first = interpret_response("<ErrCount>1</ErrCount><Err1>bad host</Err1>");
    let second = interpret_response("<ErrCount>0</ErrCount>");
    assert!(matches!(first, UpdateOutcome::Failure { .. }));
    assert!(matches!(second, UpdateOutcome::Success));
    assert_eq!(plan.write_cache, Some("1.2.3.4".to_string()));
}

#[test]
fn missing_cache_reads_as_never_set() {
    let resolved = Some("1.2.3.4".to_string());
    assert!(matches!(classify_cycle(&resolved, ""), CycleStep::Update));
    let plan = plan_cycle(&resolved, "", &endpoints(&["www"]), "example.com", "secret");
    assert_eq!(plan.request_urls.len(), 1);
    assert_eq!(plan.write_cache, Some("1.2.3.4".to_string()));
}
