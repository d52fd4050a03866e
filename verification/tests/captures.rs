use dns_postmortem::event::{DnsEvent, Timestamp};
use dns_postmortem::report::{analyze_frames, is_pcapng, CapturedFrame, FullReport};

const CLIENT: [u8; 4] = [10, 0, 0, 1];
const SERVER: [u8; 4] = [8, 8, 8, 8];
const ROGUE: [u8; 4] = [6, 6, 6, 6];

fn name(text: &str) -> Vec<u8> {
    let mut bytes: Vec<u8> = Vec::new();
    for label in text.split('.') {
        bytes.push(label.len() as u8);
        bytes.extend_from_slice(label.as_bytes());
    }
    bytes.push(0);
    bytes
}

fn message(txid: u16, flags: u16, asked: &str, qtype: u16, ttls: &[u32]) -> Vec<u8> {
    let mut bytes: Vec<u8> = Vec::new();
    for v in [txid, flags, 1, ttls.len() as u16, 0, 0] {
        bytes.extend_from_slice(&v.to_be_bytes());
    }
    bytes.extend_from_slice(&name(asked));
    bytes.extend_from_slice(&qtype.to_be_bytes());
    bytes.extend_from_slice(&[0, 1]);
    for ttl in ttls {
        bytes.extend_from_slice(&[0xC0, 12, 0, 1, 0, 1]);
        bytes.extend_from_slice(&ttl.to_be_bytes());
        bytes.extend_from_slice(&[0, 4, 192, 0, 2, 1]);
    }
    bytes
}

fn frame(
    ts: (u32, u32),
    protocol: u8,
    src: [u8; 4],
    dst: [u8; 4],
    payload: &[u8],
) -> CapturedFrame {
    let mut data = vec![2; 12];
    data.extend_from_slice(&[0x08, 0x00, 0x45, 0]);
    data.extend_from_slice(&((20 + payload.len()) as u16).to_be_bytes());
    data.extend_from_slice(&[0, 0, 0, 0, 64, protocol, 0, 0]);
    data.extend_from_slice(&src);
    data.extend_from_slice(&dst);
    data.extend_from_slice(payload);
    CapturedFrame { ts: Timestamp { sec: ts.0, usec: ts.1 }, data }
}

fn udp(ports: (u16, u16), payload: &[u8]) -> Vec<u8> {
    let mut bytes: Vec<u8> = Vec::new();
    for v in [ports.0, ports.1, (8 + payload.len()) as u16, 0] {
        bytes.extend_from_slice(&v.to_be_bytes());
    }
    bytes.extend_from_slice(payload);
    bytes
}

fn tcp(ports: (u16, u16), payload: &[u8]) -> Vec<u8> {
    let mut bytes: Vec<u8> = Vec::new();
    bytes.extend_from_slice(&ports.0.to_be_bytes());
    bytes.extend_from_slice(&ports.1.to_be_bytes());
    bytes.extend_from_slice(&[0; 8]);
    bytes.extend_from_slice(&[0x50, 0x18, 0, 0, 0, 0, 0, 0]);
    bytes.extend_from_slice(payload);
    bytes
}

fn framed(msg: &[u8]) -> Vec<u8> {
    let mut bytes = (msg.len() as u16).to_be_bytes().to_vec();
    bytes.extend_from_slice(msg);
    bytes
}

fn ask(ts: (u32, u32), txid: u16, asked: &str, qtype: u16) -> CapturedFrame {
    let msg = message(txid, 0x0100, asked, qtype, &[]);
    frame(ts, 17, CLIENT, SERVER, &udp((40000, 53), &msg))
}

fn reply(ts: (u32, u32), txid: u16, asked: &str, rcode: u16, ttls: &[u32]) -> CapturedFrame {
    let msg = message(txid, 0x8180 | rcode, asked, 1, ttls);
    frame(ts, 17, SERVER, CLIENT, &udp((53, 40000), &msg))
}

fn kinds(report: &FullReport) -> Vec<&str> {
    report.root_cause.chains.iter().map(|c| c.kind.as_str()).collect()
}

fn check_counts(report: &FullReport) {
    let sum = &report.summary;
    assert_eq!(sum.total_queries + sum.total_responses + sum.anomalies, report.events.len());
    assert!(sum.nxdomain_count + sum.servfail_count <= sum.total_responses);
    assert!(sum.timeout_count <= sum.anomalies);
    assert!(report.dns_packets <= report.total_packets);
    assert!(sum.unique_clients <= report.dns_packets);
    assert!(sum.unique_names <= report.dns_packets);
}

#[test]
fn scenario_clean() {
    let mut frames: Vec<CapturedFrame> = Vec::new();
    for i in 0..4u16 {
        let asked = format!("host{}.example.com", i);
        frames.push(ask((100 + i as u32, 0), i, &asked, 1));
        let rcode = if i == 3 { 2 } else { 0 };
        frames.push(reply((100 + i as u32, 20_000), i, &asked, rcode, &[300]));
    }
    let report = analyze_frames(&frames);
    check_counts(&report);
    assert_eq!(report.total_packets, 8);
    assert_eq!(report.dns_packets, 8);
    assert_eq!(report.duration_us, 3_020_000);
    assert_eq!(report.summary.total_queries, 4);
    assert_eq!(report.summary.total_responses, 4);
    assert_eq!(report.summary.servfail_count, 1);
    assert_eq!(report.summary.anomalies, 0);
    assert_eq!(report.summary.unique_clients, 1);
    assert_eq!(report.summary.unique_names, 4);
    assert_eq!(report.root_cause.primary, "Clean");
    assert!(report.root_cause.chains.is_empty());
}

#[test]
fn scenario_nxdomain_flood() {
    let mut frames: Vec<CapturedFrame> = Vec::new();
    for i in 0..30u16 {
        let asked = format!("xq{}zk.com", i);
        frames.push(ask((0, 300_000 * i as u32), i, &asked, 1));
        frames.push(reply((0, 300_000 * i as u32 + 1000), i, &asked, 3, &[]));
    }
    let report = analyze_frames(&frames);
    check_counts(&report);
    assert_eq!(report.summary.nxdomain_count, 30);
    assert_eq!(report.root_cause.primary, "DGA Activity");
    assert_eq!(kinds(&report), vec!["DGA Activity"]);
    assert!(report.root_cause.has_critical);
    let floods = report.events.iter().filter(|e| matches!(e.event, DnsEvent::NxdomainFlood { .. }));
    assert_eq!(floods.count(), 1);
}

#[test]
fn scenario_slow_probe() {
    let mut frames: Vec<CapturedFrame> = Vec::new();
    for (i, sub) in ["www", "mail", "ftp", "dev", "vpn", "test", "git", "db"].iter().enumerate() {
        let asked = format!("{}.target.com", sub);
        frames.push(ask((30 * i as u32, 0), i as u16, &asked, 1));
        frames.push(reply((30 * i as u32, 5000), i as u16, &asked, 3, &[]));
    }
    let report = analyze_frames(&frames);
    check_counts(&report);
    assert_eq!(kinds(&report), vec!["Subdomain Probing"]);
    assert_eq!(
        report.root_cause.chains[0].evidence_notes,
        vec!["5 NXDOMAIN from 10.0.0.1 targeting target.com"]
    );
    assert_eq!(report.root_cause.chains[0].evidence_ts[0].sec, 120);
}

#[test]
fn scenario_tunneling() {
    let label = "mzxw6ytboi3dgnzqgezdgnbvgy3tqojq";
    let long = format!("{}.t.evil.com", label);
    let frames = vec![
        ask((0, 0), 1, &long, 1),
        reply((0, 1), 1, &long, 0, &[]),
        ask((1, 0), 2, "c2.evil.com", 16),
        reply((1, 1), 2, "c2.evil.com", 0, &[]),
        ask((2, 0), 3, "c2.evil.com", 10),
        reply((2, 1), 3, "c2.evil.com", 0, &[]),
    ];
    let report = analyze_frames(&frames);
    check_counts(&report);
    assert_eq!(kinds(&report), vec!["DNS Tunneling"]);
    assert_eq!(
        report.root_cause.chains[0].evidence_notes,
        vec![
            format!("{} (A, long subdomain label)", long),
            "c2.evil.com (TXT, suspicious record type)".to_string(),
            "c2.evil.com (NULL, suspicious record type)".to_string(),
        ]
    );
}

#[test]
fn scenario_query_timeout() {
    let mut frames: Vec<CapturedFrame> = Vec::new();
    for again in 0..4u32 {
        for i in 0..5u16 {
            frames.push(ask((2 * again, i as u32), i, &format!("q{}.example", i), 1));
        }
    }
    let report = analyze_frames(&frames);
    check_counts(&report);
    assert_eq!(report.summary.total_queries, 5);
    assert_eq!(report.summary.timeout_count, 5);
    assert_eq!(kinds(&report), vec!["Server Unreachable", "Network Instability"]);
    assert_eq!(report.root_cause.primary, "Server Unreachable");
    assert_eq!(
        report.root_cause.chains[0].evidence_notes[3],
        "5 total timeouts to 8.8.8.8"
    );
    let late = report.events.last().unwrap();
    assert_eq!(late.ts, Timestamp { sec: 6, usec: 4 });
}

#[test]
fn scenario_fast_flux() {
    let frames = vec![
        ask((0, 0), 1, "flux.example", 1),
        reply((0, 1), 1, "flux.example", 0, &[3600]),
        ask((1, 0), 2, "flux.example", 1),
        reply((1, 1), 2, "flux.example", 0, &[5]),
    ];
    let report = analyze_frames(&frames);
    check_counts(&report);
    assert_eq!(kinds(&report), vec!["Fast-Flux Infrastructure"]);
    assert_eq!(
        report.root_cause.chains[0].evidence_notes,
        vec!["flux.example: TTL range 5s–3600s (720x variation)"]
    );
}

#[test]
fn scenario_truncated_and_tcp() {
    let asked = message(1, 0x0100, "big.example", 1, &[]);
    let answered = message(2, 0x8180, "big.example", 1, &[60, 60]);
    let again = message(2, 0x0100, "big.example", 1, &[]);
    let frames = vec![
        frame((0, 0), 17, CLIENT, SERVER, &udp((40000, 53), &asked)),
        reply((0, 1), 1, "big.example", 0x0200, &[]),
        frame((0, 2), 6, CLIENT, SERVER, &tcp((40001, 53), &[])),
        frame((0, 3), 6, CLIENT, SERVER, &tcp((40001, 53), &framed(&again))),
        frame((0, 4), 6, SERVER, CLIENT, &tcp((53, 40001), &framed(&answered))),
    ];
    let report = analyze_frames(&frames);
    check_counts(&report);
    assert_eq!(report.total_packets, 5);
    assert_eq!(report.dns_packets, 4);
    assert_eq!(report.summary.total_responses, 2);
    assert_eq!(report.summary.anomalies, 1);
    assert!(matches!(report.events[1].event, DnsEvent::TruncatedResponse { .. }));
    assert!(matches!(
        report.events[4].event,
        DnsEvent::ResponseReceived { answer_count: 2, latency_us: 1, .. }
    ));
}

#[test]
fn scenario_unsolicited() {
    let spoofed = message(1, 0x8180, "bank.example", 1, &[60]);
    let frames = vec![
        ask((0, 0), 1, "bank.example", 1),
        reply((0, 1), 1, "bank.example", 0, &[60]),
        frame((0, 2), 17, ROGUE, CLIENT, &udp((53, 40000), &spoofed)),
    ];
    let report = analyze_frames(&frames);
    check_counts(&report);
    assert_eq!(kinds(&report), vec!["Rogue Resolver"]);
    assert!(report.root_cause.has_critical);
    assert_eq!(
        report.root_cause.chains[0].evidence_notes,
        vec![
            "Duplicate response for bank.example from 8.8.8.8 and 6.6.6.6",
            "Unsolicited NOERROR from 6.6.6.6 for bank.example",
        ]
    );
}

#[test]
fn spoofed_response_that_comes_first_leaves_the_query_waiting() {
    let spoofed = message(1, 0x8180, "bank.example", 1, &[60]);
    let frames = vec![
        ask((0, 0), 1, "bank.example", 1),
        frame((0, 1), 17, ROGUE, CLIENT, &udp((53, 40000), &spoofed)),
        reply((0, 2), 1, "bank.example", 0, &[60]),
    ];
    let report = analyze_frames(&frames);
    assert_eq!(report.summary.total_responses, 1);
    assert_eq!(report.summary.anomalies, 1);
    assert_eq!(kinds(&report), vec!["Rogue Resolver"]);
}

#[test]
fn empty_capture() {
    let report = analyze_frames(&vec![]);
    check_counts(&report);
    assert_eq!(report.total_packets, 0);
    assert_eq!(report.duration_us, 0);
    assert!(report.events.is_empty());
    assert_eq!(report.root_cause.primary, "Clean");
}

#[test]
fn other_frames_only_move_the_clock() {
    let msg = message(9, 0x0100, "other.example", 1, &[]);
    let frames = vec![
        CapturedFrame { ts: Timestamp { sec: 1, usec: 0 }, data: vec![] },
        ask((2, 0), 1, "lost.example", 1),
        frame((3, 0), 17, CLIENT, SERVER, &udp((40000, 5353), &msg)),
        frame((4, 0), 1, CLIENT, SERVER, &udp((40000, 53), &msg)),
        frame((5, 0), 17, CLIENT, SERVER, &udp((40000, 53), &msg[..20])),
        frame((6, 0), 6, CLIENT, SERVER, &tcp((40000, 54), &framed(&msg))),
        frame((7, 0), 6, CLIENT, SERVER, &tcp((40000, 53), &msg)),
    ];
    let report = analyze_frames(&frames);
    check_counts(&report);
    assert_eq!(report.total_packets, 7);
    assert_eq!(report.dns_packets, 1);
    assert_eq!(report.duration_us, 6_000_000);
    assert_eq!(report.summary.timeout_count, 1);
    assert_eq!(report.summary.unique_names, 1);
}

#[test]
fn first_message_is_reported_with_its_time_and_severity() {
    let report = analyze_frames(&vec![ask((12, 34), 1, "a.example", 1)]);
    assert_eq!(
        format!("{:?}", report.events[0]),
        "TimedEvent { ts: Timestamp { sec: 12, usec: 34 }, event: QuerySent { txid: 1, \
         client: \"10.0.0.1\", server: \"8.8.8.8\", name: \"a.example\", qtype: \"A\" }, \
         severity: Info }"
    );
    assert_eq!(report.events.len(), 1);
}

#[test]
fn capture_formats_are_told_apart() {
    assert!(is_pcapng(&[0x0A, 0x0D, 0x0D, 0x0A, 0x1C]));
    assert!(!is_pcapng(&[0xD4, 0xC3, 0xB2, 0xA1]));
    assert!(!is_pcapng(&[0x0A, 0x0D, 0x0D]));
    assert!(!is_pcapng(&[0x0A, 0x0D, 0x0D, 0x0B]));
}

#[test]
fn events_never_go_away() {
    let mut frames = vec![
        ask((0, 0), 1, "a.example", 1),
        reply((0, 1), 1, "a.example", 0, &[60]),
        reply((0, 2), 1, "a.example", 0, &[60]),
        ask((1, 0), 2, "b.example", 16),
    ];
    let before: Vec<String> =
        analyze_frames(&frames).events.iter().map(|e| format!("{:?}", e)).collect();
    frames.push(reply((2, 0), 2, "b.example", 3, &[]));
    frames.push(ask((9, 0), 3, "c.example", 1));
    let after: Vec<String> =
        analyze_frames(&frames).events.iter().map(|e| format!("{:?}", e)).collect();
    assert!(after.len() > before.len());
    assert_eq!(&after[..before.len()], &before[..]);
}
