use dns_postmortem::domain::common_base_domain;
use dns_postmortem::event::{classify_event, DnsEvent, TimedEvent, Timestamp};
use dns_postmortem::root_cause::{correlate, RootCauseKind, RootCauseReport};

const KINDS: [RootCauseKind; 8] = [
    RootCauseKind::DnsTunneling,
    RootCauseKind::DgaActivity,
    RootCauseKind::SubdomainProbing,
    RootCauseKind::RogueResolver,
    RootCauseKind::ServerUnreachable,
    RootCauseKind::FastFlux,
    RootCauseKind::NetworkInstability,
    RootCauseKind::Clean,
];

fn s(text: &str) -> String {
    text.to_string()
}

fn timed(sec: u32, event: DnsEvent) -> TimedEvent {
    let severity = classify_event(&event);
    TimedEvent { ts: Timestamp { sec, usec: 0 }, event, severity }
}

fn sent() -> DnsEvent {
    DnsEvent::QuerySent {
        txid: 1,
        client: s("10.0.0.1"),
        server: s("10.0.0.53"),
        name: s("x"),
        qtype: s("A"),
    }
}

fn tunnel(reason: &str) -> DnsEvent {
    DnsEvent::TunnelingIndicator {
        client: s("10.0.0.1"),
        name: s("data.evil.example"),
        qtype: s("TXT"),
        reason: s(reason),
    }
}

fn flood(sample_names: Vec<String>) -> DnsEvent {
    DnsEvent::NxdomainFlood {
        client: s("10.0.0.1"),
        server: s("10.0.0.53"),
        count: 20,
        window_sec: 10,
        sample_names,
    }
}

fn probe(names: &[&str]) -> DnsEvent {
    DnsEvent::SlowNxdomainProbe {
        client: s("10.0.0.1"),
        server: s("10.0.0.53"),
        count: names.len(),
        names: names.iter().map(|n| s(n)).collect(),
    }
}

fn unsolicited() -> DnsEvent {
    DnsEvent::UnsolicitedResponse {
        txid: 4,
        src: s("6.6.6.6"),
        name: s("bank.example"),
        rcode: s("NOERROR"),
    }
}

fn timeout(name: &str, server: &str) -> DnsEvent {
    DnsEvent::QueryTimeout {
        txid: 0,
        client: s("10.0.0.1"),
        server: s(server),
        name: s(name),
        qtype: s("A"),
    }
}

fn ttl(ttl_min: u32, ttl_max: u32) -> DnsEvent {
    DnsEvent::TtlAnomaly { name: s("flux.example"), ttl_min, ttl_max, server: s("10.0.0.53") }
}

fn retransmit() -> DnsEvent {
    DnsEvent::QueryRetransmit { txid: 3, client: s("10.0.0.1"), name: s("lost.example"), count: 3 }
}

fn notes(report: &RootCauseReport) -> Vec<String> {
    assert_eq!(report.chains.len(), 1);
    report.chains[0].evidence_notes.clone()
}

#[test]
fn titles_lead_back_to_their_causes() {
    for kind in KINDS {
        assert_eq!(RootCauseKind::from_str(kind.as_str()), kind);
    }
    assert_eq!(RootCauseKind::from_str("dns tunneling"), RootCauseKind::Clean);
    assert_eq!(RootCauseKind::from_str(""), RootCauseKind::Clean);
}

#[test]
fn titles_and_descriptions() {
    assert_eq!(RootCauseKind::DnsTunneling.as_str(), "DNS Tunneling");
    assert_eq!(RootCauseKind::DgaActivity.as_str(), "DGA Activity");
    assert_eq!(RootCauseKind::SubdomainProbing.as_str(), "Subdomain Probing");
    assert_eq!(RootCauseKind::RogueResolver.as_str(), "Rogue Resolver");
    assert_eq!(RootCauseKind::ServerUnreachable.as_str(), "Server Unreachable");
    assert_eq!(RootCauseKind::FastFlux.as_str(), "Fast-Flux Infrastructure");
    assert_eq!(RootCauseKind::NetworkInstability.as_str(), "Network Instability");
    assert_eq!(RootCauseKind::Clean.as_str(), "Clean");
    assert_eq!(
        RootCauseKind::ServerUnreachable.description(),
        "Multiple queries without any response. DNS server may be down, filtered, or misconfigured."
    );
    assert_eq!(
        RootCauseKind::Clean.description(),
        "No anomalies detected. Traffic appears consistent with normal DNS operation."
    );
    assert_eq!(
        RootCauseKind::DnsTunneling.description(),
        "Detected DNS queries with unusually long labels or suspicious record types (NULL/TXT). \
         This pattern is consistent with DNS tunneling used for data exfiltration or C2 \
         communication."
    );
    assert_eq!(
        RootCauseKind::DgaActivity.description(),
        "High volume of NXDOMAIN responses in a short window indicates Domain Generation \
         Algorithm (DGA) activity. This is a common malware technique to locate C2 servers."
    );
    assert_eq!(
        RootCauseKind::SubdomainProbing.description(),
        "Slow but persistent NXDOMAIN stream targeting subdomains of a single domain. \
         Consistent with subdomain enumeration or reconnaissance."
    );
    assert_eq!(
        RootCauseKind::RogueResolver.description(),
        "Duplicate responses to the same transaction ID from different sources, or unsolicited \
         responses. Indicates a rogue resolver or DNS spoofing attempt."
    );
    assert_eq!(
        RootCauseKind::FastFlux.description(),
        "Significant TTL variation observed for the same domain name across multiple responses. \
         Consistent with fast-flux infrastructure used to obscure malicious hosting."
    );
    assert_eq!(
        RootCauseKind::NetworkInstability.description(),
        "High retransmission rate observed. Queries are being repeated multiple times without \
         receiving responses, indicating packet loss or network congestion."
    );
}

#[test]
fn no_anomaly_is_clean() {
    for events in [vec![], vec![timed(1, sent()), timed(2, sent())]] {
        let report = correlate(&events);
        assert_eq!(report.primary, "Clean");
        assert_eq!(report.primary_description, RootCauseKind::Clean.description());
        assert!(report.chains.is_empty());
        assert!(!report.has_critical);
    }
}

#[test]
fn truncation_alone_is_clean() {
    let cut =
        DnsEvent::TruncatedResponse { txid: 1, client: s("a"), server: s("b"), name: s("c") };
    assert_eq!(correlate(&[timed(1, cut)]).primary, "Clean");
}

#[test]
fn tunneling_notes() {
    let report = correlate(&[
        timed(1, tunnel("long_label")),
        timed(2, tunnel("suspicious_qtype")),
        timed(3, tunnel("entropy")),
    ]);
    assert_eq!(report.primary, "DNS Tunneling");
    assert!(report.has_critical);
    assert_eq!(report.chains[0].severity, "Critical");
    assert_eq!(report.chains[0].kind, "DNS Tunneling");
    assert_eq!(report.chains[0].description, report.primary_description);
    assert_eq!(
        notes(&report),
        vec![
            "data.evil.example (TXT, long subdomain label)",
            "data.evil.example (TXT, suspicious record type)",
            "data.evil.example (TXT, entropy)",
        ]
    );
    let times: Vec<u32> = report.chains[0].evidence_ts.iter().map(|t| t.sec).collect();
    assert_eq!(times, vec![1, 2, 3]);
}

#[test]
fn flood_notes() {
    let report = correlate(&[timed(1, flood(vec![s("qx.example"), s("zz.example")]))]);
    assert_eq!(report.primary, "DGA Activity");
    assert_eq!(notes(&report), vec!["20 NXDOMAIN in 10s from 10.0.0.1 (e.g. qx.example)"]);
    let report = correlate(&[timed(1, flood(vec![]))]);
    assert_eq!(notes(&report), vec!["20 NXDOMAIN in 10s from 10.0.0.1 (e.g. ?)"]);
}

#[test]
fn probe_notes() {
    let report = correlate(&[timed(1, probe(&["foo.evil.com", "bar.evil.com"]))]);
    assert_eq!(report.primary, "Subdomain Probing");
    assert_eq!(notes(&report), vec!["2 NXDOMAIN from 10.0.0.1 targeting evil.com"]);
    let report = correlate(&[
        timed(1, probe(&["foo.evil.com", "bar.good.com"])),
        timed(2, probe(&["one.example"])),
    ]);
    assert_eq!(notes(&report), vec!["1 NXDOMAIN from 10.0.0.1 targeting one.example"]);
    assert_eq!(report.chains[0].evidence_ts[0].sec, 2);
}

#[test]
fn probe_of_several_domains_is_no_subdomain_probing() {
    let names = ["a.one.com", "b.two.com", "c.three.com", "d.four.com", "e.five.com"];
    let report = correlate(&[timed(9, probe(&names))]);
    assert_eq!(report.primary, "Clean");
    assert!(report.chains.is_empty());
    assert!(!report.has_critical);
}

#[test]
fn rogue_resolver_notes() {
    let twice = DnsEvent::DuplicateResponse {
        txid: 4,
        name: s("bank.example"),
        first_src: s("10.0.0.53"),
        second_src: s("10.0.0.54"),
    };
    let report = correlate(&[timed(1, twice), timed(2, unsolicited())]);
    assert_eq!(report.primary, "Rogue Resolver");
    assert!(report.has_critical);
    assert_eq!(
        notes(&report),
        vec![
            "Duplicate response for bank.example from 10.0.0.53 and 10.0.0.54",
            "Unsolicited NOERROR from 6.6.6.6 for bank.example",
        ]
    );
}

#[test]
fn unreachable_server_takes_three_timeouts() {
    let two = [timed(9, timeout("a", "s1")), timed(9, timeout("b", "s1"))];
    assert_eq!(correlate(&two).primary, "Clean");
    let three =
        [timed(9, timeout("a", "s1")), timed(9, timeout("b", "s2")), timed(9, timeout("c", "s3"))];
    let report = correlate(&three);
    assert_eq!(report.primary, "Server Unreachable");
    assert!(!report.has_critical);
    assert_eq!(report.chains[0].severity, "Warning");
    assert_eq!(
        notes(&report),
        vec![
            "No response for a from server s1",
            "No response for b from server s2",
            "No response for c from server s3",
        ]
    );
}

#[test]
fn unreachable_server_lists_three_and_totals() {
    let queries = [("a", "s2"), ("b", "s1"), ("c", "s2"), ("d", "s3"), ("e", "s1"), ("f", "s2")];
    let events: Vec<TimedEvent> = queries
        .iter()
        .map(|(name, server)| timed(9, timeout(name, server)))
        .collect();
    let report = correlate(&events);
    assert_eq!(
        notes(&report),
        vec![
            "No response for a from server s2",
            "No response for b from server s1",
            "No response for c from server s2",
            "3 total timeouts to s2",
            "2 total timeouts to s1",
        ]
    );
    assert_eq!(report.chains[0].evidence_ts.len(), 6);
}

#[test]
fn fast_flux_notes() {
    let report = correlate(&[timed(1, ttl(5, 3600)), timed(2, ttl(7, 100)), timed(3, ttl(0, 9))]);
    assert_eq!(report.primary, "Fast-Flux Infrastructure");
    assert!(!report.has_critical);
    assert_eq!(
        notes(&report),
        vec![
            "flux.example: TTL range 5s–3600s (720x variation)",
            "flux.example: TTL range 7s–100s (14x variation)",
            "flux.example: TTL range 0s–9s (9x variation)",
        ]
    );
}

#[test]
fn instability_notes() {
    let report = correlate(&[timed(1, retransmit())]);
    assert_eq!(report.primary, "Network Instability");
    assert_eq!(notes(&report), vec!["3 retransmits for lost.example from 10.0.0.1"]);
}

#[test]
fn more_severe_causes_come_first() {
    let events = [
        timed(1, retransmit()),
        timed(2, ttl(1, 10)),
        timed(3, timeout("a", "s")),
        timed(3, timeout("b", "s")),
        timed(3, timeout("c", "s")),
        timed(4, unsolicited()),
        timed(5, probe(&["x.y"])),
        timed(6, flood(vec![])),
        timed(7, tunnel("long_label")),
        timed(8, sent()),
    ];
    let report = correlate(&events);
    let found: Vec<&str> = report.chains.iter().map(|c| c.kind.as_str()).collect();
    let expected: Vec<&str> = KINDS[..7].iter().map(|k| k.as_str()).collect();
    assert_eq!(found, expected);
    assert_eq!(report.primary, "DNS Tunneling");
    assert!(report.has_critical);
    let warnings = correlate(&events[..5]);
    assert_eq!(warnings.primary, "Server Unreachable");
    assert!(!warnings.has_critical);
    assert_eq!(correlate(&events[..6]).primary, "Rogue Resolver");
}

#[test]
fn common_base_domains() {
    let base = |names: &[&str]| common_base_domain(&names.iter().map(|n| s(n)).collect());
    assert_eq!(base(&[]), None);
    assert_eq!(base(&["only.one.example"]), Some(s("only.one.example")));
    assert_eq!(base(&["foo.evil.com", "bar.evil.com"]), Some(s("evil.com")));
    assert_eq!(base(&["evil.com", "a.b.c.evil.com"]), Some(s("evil.com")));
    assert_eq!(base(&["foo.evil.com", "bar.evil.org"]), None);
    assert_eq!(base(&["foo.evil.com", "vil.com"]), None);
    assert_eq!(base(&["foo.evil.com", "notevil.com"]), None);
    assert_eq!(base(&["foo.evil.com", "bar.notevil.com"]), None);
    assert_eq!(base(&["foo.evil.com", "bar.evil.com", "evil.com"]), Some(s("evil.com")));
    assert_eq!(base(&["single", "single"]), None);
    assert_eq!(base(&["a.b.", "c.b."]), Some(s("b.")));
    assert_eq!(base(&["a.bücher.de", "x.bücher.de"]), Some(s("bücher.de")));
}
