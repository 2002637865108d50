use engine_bridge::addr::IpAddress;
use engine_bridge::dns::system::{ResolveStep, SystemResolver};
use engine_bridge::dns::{parse_dns_qname, parse_response, ResolveError};

fn encode_name(name: &str) -> Vec<u8> {
    let mut encoded = Vec::new();
    for label in name.split('.') {
        encoded.push(label.len() as u8);
        encoded.extend_from_slice(label.as_bytes());
    }
    encoded.push(0);
    encoded
}

fn header(qdcount: u16, ancount: u16) -> Vec<u8> {
    let mut payload = Vec::new();
    payload.extend_from_slice(&[0x12, 0x34]);
    payload.extend_from_slice(&[0x81, 0x80]);
    payload.extend_from_slice(&qdcount.to_be_bytes());
    payload.extend_from_slice(&ancount.to_be_bytes());
    payload.extend_from_slice(&[0x00, 0x00]);
    payload.extend_from_slice(&[0x00, 0x00]);
    payload
}

fn simple_response(host: &str, addr: [u8; 4], ttl: u32) -> Vec<u8> {
    let mut payload = header(1, 1);
    payload.extend_from_slice(&encode_name(host));
    payload.extend_from_slice(&[0x00, 0x01, 0x00, 0x01]);
    payload.extend_from_slice(&[0xC0, 0x0C]);
    payload.extend_from_slice(&[0x00, 0x01, 0x00, 0x01]);
    payload.extend_from_slice(&ttl.to_be_bytes());
    payload.extend_from_slice(&[0x00, 0x04]);
    payload.extend_from_slice(&addr);
    payload
}

#[test]
fn parse_response_maps_addresses_to_question_name() {
    let question = "v16.us.tiktok.com";
    let cname = "edge.example.net";
    let mut payload = Vec::new();
    payload.extend_from_slice(&[0x12, 0x34]); // id
    payload.extend_from_slice(&[0x81, 0x80]); // standard response
    payload.extend_from_slice(&[0x00, 0x01]); // qdcount
    payload.extend_from_slice(&[0x00, 0x02]); // ancount
    payload.extend_from_slice(&[0x00, 0x00]); // nscount
    payload.extend_from_slice(&[0x00, 0x00]); // arcount
    payload.extend_from_slice(&encode_name(question));
    payload.extend_from_slice(&[0x00, 0x01]); // type A
    payload.extend_from_slice(&[0x00, 0x01]); // class IN
    payload.extend_from_slice(&encode_name(question)); // answer name
    payload.extend_from_slice(&[0x00, 0x05]); // CNAME
    payload.extend_from_slice(&[0x00, 0x01]); // class IN
    payload.extend_from_slice(&[0x00, 0x00, 0x00, 0x3C]); // ttl 60
    let cname_encoded = encode_name(cname);
    payload.extend_from_slice(&[
        ((cname_encoded.len() as u16) >> 8) as u8,
        (cname_encoded.len() as u16 & 0xFF) as u8,
    ]);
    payload.extend_from_slice(&cname_encoded);
    payload.extend_from_slice(&encode_name(cname));
    payload.extend_from_slice(&[0x00, 0x01]); // type A
    payload.extend_from_slice(&[0x00, 0x01]); // class IN
    payload.extend_from_slice(&[0x00, 0x00, 0x00, 0x3C]); // ttl 60
    payload.extend_from_slice(&[0x00, 0x04]); // rdlength
    payload.extend_from_slice(&[1, 2, 3, 4]); // IPv4 addr

    let mappings = parse_response(&payload);
    assert_eq!(mappings.len(), 1);
    let mapping = &mappings[0];
    assert_eq!(mapping.host, question);
    assert_eq!(mapping.addresses, vec![IpAddress::v4(1, 2, 3, 4)]);
    assert_eq!(mapping.ttl, Some(60));
}

#[test]
fn parsing_twice_gives_equal_mappings() {
    let payload = simple_response("example.com", [203, 0, 113, 5], 120);
    let first = parse_response(&payload);
    let second = parse_response(&payload);
    assert_eq!(first.len(), 1);
    assert_eq!(first.len(), second.len());
    assert_eq!(first[0].host, second[0].host);
    assert_eq!(first[0].addresses, second[0].addresses);
    assert_eq!(first[0].ttl, second[0].ttl);
    assert_eq!(first[0].host, "example.com");
    assert_eq!(first[0].addresses, vec![IpAddress::v4(203, 0, 113, 5)]);
    assert_eq!(first[0].ttl, Some(120));
}

#[test]
fn forward_pointer_gives_no_mappings() {
    let mut payload = header(1, 1);
    payload.extend_from_slice(&[0xC0, 0x20]);
    payload.extend_from_slice(&[0x00, 0x01, 0x00, 0x01]);
    payload.extend_from_slice(&[0u8; 40]);
    assert!(parse_response(&payload).is_empty());
    // A pointer to itself is no better.
    let mut own = header(1, 0);
    own.extend_from_slice(&[0xC0, 0x0C, 0, 1, 0, 1]);
    assert!(parse_response(&own).is_empty());
    // Nor is a forward pointer in the name of an answer.
    let mut answer = header(1, 1);
    answer.extend_from_slice(&encode_name("a.example"));
    answer.extend_from_slice(&[0x00, 0x01, 0x00, 0x01]);
    let here = answer.len() as u8;
    answer.extend_from_slice(&[0xC0, here + 2]);
    answer.extend_from_slice(&[0x00, 0x01, 0x00, 0x01, 0, 0, 0, 60, 0, 4, 1, 2, 3, 4]);
    assert!(parse_response(&answer).is_empty());
}

#[test]
fn queries_and_short_payloads_give_no_mappings() {
    let mut query = simple_response("example.com", [1, 2, 3, 4], 60);
    query[2] = 0x01;
    assert!(parse_response(&query).is_empty());
    assert!(parse_response(&[0u8; 11]).is_empty());
    let mut cut = simple_response("example.com", [1, 2, 3, 4], 60);
    cut.truncate(cut.len() - 1);
    assert!(parse_response(&cut).is_empty());
}

#[test]
fn long_labels_are_refused() {
    let mut payload = header(1, 0);
    payload.push(64);
    payload.extend_from_slice(&[b'a'; 64]);
    payload.push(0);
    payload.extend_from_slice(&[0, 1, 0, 1]);
    assert!(parse_response(&payload).is_empty());
    assert!(parse_dns_qname(&payload).is_none());
}

#[test]
fn aaaa_records_and_several_hosts() {
    let mut payload = header(2, 3);
    payload.extend_from_slice(&encode_name("one.test"));
    payload.extend_from_slice(&[0, 28, 0, 1]);
    payload.extend_from_slice(&encode_name("two.test"));
    payload.extend_from_slice(&[0, 1, 0, 1]);
    payload.extend_from_slice(&encode_name("two.test"));
    payload.extend_from_slice(&[0, 1, 0, 1, 0, 0, 0, 5, 0, 4, 9, 9, 9, 9]);
    payload.extend_from_slice(&encode_name("one.test"));
    payload.extend_from_slice(&[0, 28, 0, 1, 0, 0, 1, 0, 0, 16]);
    let mut v6 = [0u8; 16];
    v6[0] = 0x20;
    v6[1] = 0x01;
    v6[15] = 1;
    payload.extend_from_slice(&v6);
    payload.extend_from_slice(&encode_name("two.test"));
    payload.extend_from_slice(&[0, 1, 0, 1, 0, 0, 0, 9, 0, 4, 8, 8, 8, 8]);
    let mappings = parse_response(&payload);
    assert_eq!(mappings.len(), 2);
    assert_eq!(mappings[0].host, "two.test");
    assert_eq!(
        mappings[0].addresses,
        vec![IpAddress::v4(9, 9, 9, 9), IpAddress::v4(8, 8, 8, 8)]
    );
    assert_eq!(mappings[0].ttl, Some(5));
    assert_eq!(mappings[1].host, "one.test");
    assert_eq!(mappings[1].addresses, vec![IpAddress::V6((0x2001u128 << 112) | 1)]);
    assert_eq!(mappings[1].ttl, Some(256));
}

#[test]
fn question_names_are_read_for_telemetry() {
    let response = simple_response("api.blocked.test", [1, 2, 3, 4], 60);
    assert_eq!(parse_dns_qname(&response), Some(("api.blocked.test".to_string(), true)));
    let mut query = response.clone();
    query[2] = 0x01;
    assert_eq!(parse_dns_qname(&query), Some(("api.blocked.test".to_string(), false)));
    let mut none = response.clone();
    none[4] = 0;
    none[5] = 0;
    assert_eq!(parse_dns_qname(&none), None);
    let mut bad = header(1, 0);
    bad.extend_from_slice(&[2, 0xff, 0xfe, 0, 0, 1, 0, 1]);
    assert_eq!(parse_dns_qname(&bad), None);
    let lossy = parse_response(&{
        let mut p = header(1, 1);
        p.extend_from_slice(&[2, 0xff, b'a', 0, 0, 1, 0, 1]);
        p.extend_from_slice(&[0xC0, 0x0C, 0, 1, 0, 1, 0, 0, 0, 1, 0, 4, 1, 1, 1, 1]);
        p
    });
    assert_eq!(lossy.len(), 1);
    assert_eq!(lossy[0].host, "\u{FFFD}a");
}

#[test]
fn tests_rejects_empty_hosts() {
    let mut resolver = SystemResolver::new(60);
    assert!(matches!(
        resolver.lookup("", 0),
        ResolveStep::Done(Err(ResolveError::Unsupported))
    ));
}

#[test]
fn system_rejects_empty_hosts() {
    let mut resolver = SystemResolver::new(60);
    assert!(matches!(
        resolver.lookup("   ", 5),
        ResolveStep::Done(Err(ResolveError::Unsupported))
    ));
    let long = "a".repeat(256);
    assert!(matches!(
        resolver.lookup(&long, 5),
        ResolveStep::Done(Err(ResolveError::Unsupported))
    ));
}

#[test]
fn tests_resolves_ip_literals() {
    let mut resolver = SystemResolver::new(60);
    match resolver.lookup("2001:4860:4860::8888", 0) {
        ResolveStep::Done(Ok(result)) => {
            assert_eq!(result.addresses, vec!["2001:4860:4860::8888".to_string()]);
            assert_eq!(result.ttl_secs, 60);
        }
        other => panic!("expected an answer, got {:?}", other),
    }
}

#[test]
fn system_resolves_ip_literals() {
    let mut resolver = SystemResolver::new(0);
    match resolver.lookup(" 192.0.2.7 ", 0) {
        ResolveStep::Done(Ok(result)) => {
            assert_eq!(result.addresses, vec!["192.0.2.7".to_string()]);
            assert_eq!(result.ttl_secs, 1);
        }
        other => panic!("expected an answer, got {:?}", other),
    }
}

#[test]
fn tests_resolves_localhost() {
    let mut resolver = SystemResolver::new(60);
    let name = match resolver.lookup("localhost", 0) {
        ResolveStep::Query(name) => name,
        other => panic!("expected a query, got {:?}", other),
    };
    assert_eq!(name, "localhost");
    let found = vec!["127.0.0.1".to_string(), "::1".to_string(), "127.0.0.1".to_string()];
    let result = resolver.complete(&name, &found, 0).unwrap();
    assert!(!result.addresses.is_empty());
    assert_eq!(result.addresses, vec!["127.0.0.1".to_string(), "::1".to_string()]);
}

#[test]
fn system_resolves_localhost() {
    let mut resolver = SystemResolver::new(60);
    let name = match resolver.lookup("localhost", 1000) {
        ResolveStep::Query(name) => name,
        other => panic!("expected a query, got {:?}", other),
    };
    let result = resolver.complete(&name, &vec!["127.0.0.1".to_string()], 1000).unwrap();
    assert!(!result.addresses.is_empty());
    // The answer comes from the cache until it expires.
    match resolver.lookup("localhost", 60_999) {
        ResolveStep::Done(Ok(cached)) => assert_eq!(cached.addresses, vec!["127.0.0.1".to_string()]),
        other => panic!("expected a cached answer, got {:?}", other),
    }
    assert!(matches!(resolver.lookup("localhost", 61_000), ResolveStep::Query(_)));
}

#[test]
fn resolver_reports_lookups_without_addresses() {
    let mut resolver = SystemResolver::new(60);
    match resolver.complete("nothing.test", &Vec::new(), 0) {
        Err(ResolveError::LookupFailed(reason)) => {
            assert_eq!(reason, "resolver returned no addresses")
        }
        other => panic!("expected a failure, got {:?}", other),
    }
    assert!(matches!(resolver.lookup("nothing.test", 0), ResolveStep::Query(_)));
}

#[test]
fn resolver_cache_holds_512_names() {
    let mut resolver = SystemResolver::new(60);
    for i in 0..513 {
        let name = format!("host{}.test", i);
        resolver.complete(&name, &vec!["192.0.2.1".to_string()], 0).unwrap();
    }
    assert!(matches!(resolver.lookup("host0.test", 1), ResolveStep::Query(_)));
    assert!(matches!(resolver.lookup("host1.test", 1), ResolveStep::Done(Ok(_))));
    assert!(matches!(resolver.lookup("host512.test", 1), ResolveStep::Done(Ok(_))));
}
