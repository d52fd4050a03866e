use dns_postmortem::analyzer::Analyzer;
use dns_postmortem::dns::{DnsPacket, DnsQuestion, DnsRecord, QType, RCode};
use dns_postmortem::event::{classify_event, DnsEvent, Severity, Timestamp};

const CLIENT: &str = "10.0.0.1";
const SERVER: &str = "10.0.0.53";

fn at(sec: u32, usec: u32) -> Timestamp {
    Timestamp { sec, usec }
}

fn packet(txid: u16, is_response: bool, name: &str, qtype: QType, rcode: RCode) -> DnsPacket {
    DnsPacket {
        txid,
        is_response,
        opcode: 0,
        aa: false,
        truncated: false,
        rd: true,
        ra: is_response,
        rcode,
        questions: vec![DnsQuestion { name: name.to_string(), qtype, qclass: 1 }],
        answers: vec![],
        authority: vec![],
        additional: vec![],
        edns: None,
    }
}

fn query(txid: u16, name: &str) -> DnsPacket {
    packet(txid, false, name, QType::A, RCode::NoError)
}

fn response(txid: u16, name: &str, rcode: RCode) -> DnsPacket {
    packet(txid, true, name, QType::A, rcode)
}

fn answer(name: &str, rtype: QType, ttl: u32) -> DnsRecord {
    DnsRecord {
        name: name.to_string(),
        rtype,
        rclass: 1,
        ttl,
        rdata: vec![192, 0, 2, 1],
        parsed_addr: None,
        parsed_name: None,
    }
}

fn shown(events: &[DnsEvent]) -> Vec<String> {
    events.iter().map(|e| format!("{:?}", e)).collect()
}

fn kinds(events: &[DnsEvent]) -> Vec<String> {
    events
        .iter()
        .map(|e| format!("{:?}", e).split(' ').next().unwrap().to_string())
        .collect()
}

#[test]
fn response_answers_its_query() {
    let mut a = Analyzer::new();
    let sent = a.process(&query(7, "example.com"), CLIENT, SERVER, at(100, 250_000));
    assert_eq!(
        shown(&sent),
        vec![
            "QuerySent { txid: 7, client: \"10.0.0.1\", server: \"10.0.0.53\", \
             name: \"example.com\", qtype: \"A\" }"
        ]
    );
    let mut pkt = response(7, "example.com", RCode::NoError);
    pkt.answers.push(answer("example.com", QType::A, 60));
    let got = a.process(&pkt, SERVER, CLIENT, at(100, 262_500));
    assert_eq!(
        shown(&got),
        vec![
            "ResponseReceived { txid: 7, client: \"10.0.0.1\", server: \"10.0.0.53\", \
             name: \"example.com\", qtype: \"A\", rcode: \"NOERROR\", answer_count: 1, \
             latency_us: 12500 }"
        ]
    );
    assert!(a.finalize(at(200, 0)).is_empty());
    assert_eq!(a.unique_clients(), 1);
    assert_eq!(a.unique_names(), 1);
}

#[test]
fn latency_may_be_negative_when_frames_are_out_of_order() {
    let mut a = Analyzer::new();
    a.process(&query(7, "x"), CLIENT, SERVER, at(10, 0));
    let got = a.process(&response(7, "x", RCode::NoError), SERVER, CLIENT, at(9, 0));
    assert!(matches!(got[0], DnsEvent::ResponseReceived { latency_us: -1_000_000, .. }));
}

#[test]
fn response_without_a_query_is_unsolicited() {
    let mut a = Analyzer::new();
    let got = a.process(&response(9, "example.com", RCode::Refused), SERVER, CLIENT, at(1, 0));
    assert_eq!(
        shown(&got),
        vec![
            "UnsolicitedResponse { txid: 9, src: \"10.0.0.53\", name: \"example.com\", \
             rcode: \"REFUSED\" }"
        ]
    );
    assert_eq!(a.unique_clients(), 0);
    assert_eq!(a.unique_names(), 0);
}

#[test]
fn exchange_is_told_by_identifier_client_and_server() {
    let mut a = Analyzer::new();
    a.process(&query(7, "x"), CLIENT, SERVER, at(0, 0));
    let ok = RCode::NoError;
    let others = [
        a.process(&response(8, "x", ok), SERVER, CLIENT, at(1, 0)),
        a.process(&response(7, "x", ok), "6.6.6.6", CLIENT, at(1, 0)),
        a.process(&response(7, "x", ok), SERVER, "10.0.0.2", at(1, 0)),
        a.process(&response(7, "x", ok), CLIENT, SERVER, at(1, 0)),
    ];
    for got in others {
        assert_eq!(kinds(&got), vec!["UnsolicitedResponse"]);
    }
    let got = a.process(&response(7, "x", ok), SERVER, CLIENT, at(1, 0));
    assert_eq!(kinds(&got), vec!["ResponseReceived"]);
}

#[test]
fn second_response_is_unsolicited() {
    let mut a = Analyzer::new();
    a.process(&query(7, "x"), CLIENT, SERVER, at(0, 0));
    let first = a.process(&response(7, "x", RCode::NoError), SERVER, CLIENT, at(0, 5));
    assert_eq!(kinds(&first), vec!["ResponseReceived"]);
    a.process(&query(8, "y"), CLIENT, SERVER, at(0, 6));
    let second = a.process(&response(7, "x", RCode::NoError), SERVER, CLIENT, at(0, 7));
    assert_eq!(kinds(&second), vec!["UnsolicitedResponse"]);
}

#[test]
fn query_answered_again_by_its_server_gives_no_duplicate() {
    let mut a = Analyzer::new();
    for round in 0..3u32 {
        let sent = a.process(&query(7, "x"), CLIENT, SERVER, at(round, 0));
        assert_eq!(kinds(&sent), vec!["QuerySent"]);
        let got = a.process(&response(7, "x", RCode::NoError), SERVER, CLIENT, at(round, 9));
        assert_eq!(kinds(&got), vec!["ResponseReceived"]);
    }
}

#[test]
fn answer_from_another_source_is_a_duplicate() {
    let mut a = Analyzer::new();
    let ok = RCode::NoError;
    a.process(&query(7, "x"), CLIENT, SERVER, at(0, 0));
    a.process(&response(7, "x", ok), SERVER, CLIENT, at(0, 1));
    a.process(&query(8, "y"), CLIENT, SERVER, at(0, 2));
    for _ in 0..2 {
        let got = a.process(&response(7, "x", ok), "6.6.6.6", CLIENT, at(0, 3));
        assert_eq!(
            shown(&got),
            vec![
                "DuplicateResponse { txid: 7, name: \"x\", first_src: \"10.0.0.53\", \
                 second_src: \"6.6.6.6\" }",
                "UnsolicitedResponse { txid: 7, src: \"6.6.6.6\", name: \"x\", \
                 rcode: \"NOERROR\" }",
            ]
        );
    }
    let other_client = a.process(&response(7, "x", ok), "6.6.6.6", "10.0.0.2", at(0, 4));
    assert_eq!(kinds(&other_client), vec!["UnsolicitedResponse"]);
    let other_id = a.process(&response(9, "x", ok), "6.6.6.6", CLIENT, at(0, 4));
    assert_eq!(kinds(&other_id), vec!["UnsolicitedResponse"]);
}

#[test]
fn answer_of_a_second_server_that_was_asked_is_a_duplicate() {
    let mut a = Analyzer::new();
    let ok = RCode::NoError;
    a.process(&query(7, "x"), CLIENT, SERVER, at(0, 0));
    a.process(&query(7, "x"), CLIENT, "10.0.0.54", at(0, 0));
    let first = a.process(&response(7, "x", ok), SERVER, CLIENT, at(0, 1));
    assert_eq!(kinds(&first), vec!["ResponseReceived"]);
    let second = a.process(&response(7, "x", ok), "10.0.0.54", CLIENT, at(0, 2));
    assert_eq!(kinds(&second), vec!["DuplicateResponse", "ResponseReceived"]);
}

#[test]
fn spoofed_response_before_the_real_one_is_only_unsolicited() {
    let mut a = Analyzer::new();
    let ok = RCode::NoError;
    a.process(&query(7, "x"), CLIENT, SERVER, at(0, 0));
    let spoofed = a.process(&response(7, "x", ok), "6.6.6.6", CLIENT, at(0, 1));
    assert_eq!(kinds(&spoofed), vec!["UnsolicitedResponse"]);
    let real = a.process(&response(7, "x", ok), SERVER, CLIENT, at(0, 2));
    assert_eq!(kinds(&real), vec!["ResponseReceived"]);
}

#[test]
fn handlers_add_to_the_events_before() {
    let mut a = Analyzer::new();
    let mut events: Vec<DnsEvent> = Vec::new();
    a.handle_query(&query(7, "x"), CLIENT, SERVER, at(0, 0), &mut events);
    a.handle_response(&response(7, "x", RCode::NoError), SERVER, CLIENT, at(0, 1), &mut events);
    a.handle_response(&response(7, "x", RCode::NoError), SERVER, CLIENT, at(0, 2), &mut events);
    assert_eq!(kinds(&events), vec!["QuerySent", "ResponseReceived", "UnsolicitedResponse"]);
}

#[test]
fn third_repetition_is_reported_and_no_other() {
    let mut a = Analyzer::new();
    let mut told: Vec<Vec<String>> = Vec::new();
    for i in 0..6u32 {
        told.push(shown(&a.process(&query(7, "lost.example"), CLIENT, SERVER, at(i, 0))));
    }
    assert_eq!(told[0].len(), 1);
    assert!(told[1].is_empty() && told[2].is_empty());
    assert_eq!(
        told[3],
        vec![
            "QueryRetransmit { txid: 7, client: \"10.0.0.1\", name: \"lost.example\", count: 3 }"
        ]
    );
    assert!(told[4].is_empty() && told[5].is_empty());
}

#[test]
fn unanswered_query_times_out_when_the_analysis_ends() {
    let mut a = Analyzer::new();
    a.process(&query(7, "late.example"), CLIENT, SERVER, at(10, 500_000));
    a.process(&query(8, "young.example"), CLIENT, SERVER, at(10, 500_001));
    a.process(&query(7, "late.example"), CLIENT, SERVER, at(14, 0));
    let late = a.finalize(at(15, 500_000));
    assert_eq!(
        shown(&late),
        vec![
            "QueryTimeout { txid: 0, client: \"10.0.0.1\", server: \"10.0.0.53\", \
             name: \"late.example\", qtype: \"A\" }"
        ]
    );
    assert!(a.finalize(at(99, 0)).is_empty());
}

#[test]
fn timeouts_come_in_the_order_of_their_queries() {
    let mut a = Analyzer::new();
    for (txid, name) in [(3, "c"), (1, "a"), (2, "b")] {
        a.process(&query(txid, name), CLIENT, SERVER, at(0, 0));
    }
    a.process(&response(1, "a", RCode::NoError), SERVER, CLIENT, at(1, 0));
    let names: Vec<String> = a
        .finalize(at(5, 0))
        .into_iter()
        .map(|e| match e {
            DnsEvent::QueryTimeout { name, .. } => name,
            other => panic!("{:?}", other),
        })
        .collect();
    assert_eq!(names, vec!["c", "b"]);
}

#[test]
fn truncated_response_is_reported_first() {
    let mut a = Analyzer::new();
    a.process(&query(7, "big.example"), CLIENT, SERVER, at(0, 0));
    let mut pkt = response(7, "big.example", RCode::NoError);
    pkt.truncated = true;
    let got = a.process(&pkt, SERVER, CLIENT, at(0, 1));
    assert_eq!(kinds(&got), vec!["TruncatedResponse", "ResponseReceived"]);
    assert_eq!(
        shown(&got[..1]),
        vec![
            "TruncatedResponse { txid: 7, client: \"10.0.0.1\", server: \"10.0.0.53\", \
             name: \"big.example\" }"
        ]
    );
    let mut asked = query(8, "big.example");
    asked.truncated = true;
    assert_eq!(kinds(&a.process(&asked, CLIENT, SERVER, at(1, 0))), vec!["QuerySent"]);
}

#[test]
fn signs_of_tunneling() {
    let mut a = Analyzer::new();
    let long = format!("{}.evil.example", "a".repeat(31));
    let txt = packet(1, false, &long, QType::TXT, RCode::NoError);
    let got = a.process(&txt, CLIENT, SERVER, at(0, 0));
    assert_eq!(kinds(&got), vec!["TunnelingIndicator", "TunnelingIndicator", "QuerySent"]);
    assert_eq!(
        shown(&got[..2]),
        vec![
            format!(
                "TunnelingIndicator {{ client: \"10.0.0.1\", name: \"{}\", qtype: \"TXT\", \
                 reason: \"long_label\" }}",
                long
            ),
            format!(
                "TunnelingIndicator {{ client: \"10.0.0.1\", name: \"{}\", qtype: \"TXT\", \
                 reason: \"suspicious_qtype\" }}",
                long
            ),
        ]
    );
    let null = packet(2, false, "t.example", QType::NULL, RCode::NoError);
    let got = a.process(&null, CLIENT, SERVER, at(0, 0));
    assert_eq!(kinds(&got), vec!["TunnelingIndicator", "QuerySent"]);
    let root = packet(3, false, "", QType::TXT, RCode::NoError);
    assert_eq!(kinds(&a.process(&root, CLIENT, SERVER, at(0, 0))), vec!["QuerySent"]);
    assert_eq!(a.unique_names(), 2);
}

#[test]
fn query_without_a_question_is_told_too() {
    let mut a = Analyzer::new();
    let mut pkt = query(5, "x");
    pkt.questions.clear();
    let got = a.process(&pkt, CLIENT, SERVER, at(0, 0));
    assert_eq!(
        shown(&got),
        vec![
            "QuerySent { txid: 5, client: \"10.0.0.1\", server: \"10.0.0.53\", name: \"\", \
             qtype: \"?\" }"
        ]
    );
    assert_eq!((a.unique_clients(), a.unique_names()), (1, 0));
}

fn ask_for_nothing(a: &mut Analyzer, i: u16, server: &str, ts: Timestamp) -> Vec<DnsEvent> {
    let name = format!("h{}.evil.example", i);
    a.process(&query(i, &name), CLIENT, server, ts);
    a.process(&response(i, &name, RCode::NXDomain), server, CLIENT, ts)
}

#[test]
fn slow_probe_is_reported_at_the_fifth_response() {
    let mut a = Analyzer::new();
    for i in 1..=8u16 {
        let got = ask_for_nothing(&mut a, i, SERVER, at(60 * i as u32, 0));
        if i == 5 {
            assert_eq!(
                shown(&got[1..]),
                vec![
                    "SlowNxdomainProbe { client: \"10.0.0.1\", server: \"10.0.0.53\", count: 5, \
                     names: [\"h1.evil.example\", \"h2.evil.example\", \"h3.evil.example\", \
                     \"h4.evil.example\", \"h5.evil.example\"] }"
                ]
            );
        } else {
            assert_eq!(kinds(&got), vec!["ResponseReceived"]);
        }
    }
}

#[test]
fn flood_is_reported_at_the_twentieth_response() {
    let mut a = Analyzer::new();
    for i in 1..=30u16 {
        let got = ask_for_nothing(&mut a, i, SERVER, at(100, 300_000 * i as u32));
        match i {
            5 => assert_eq!(kinds(&got), vec!["ResponseReceived", "SlowNxdomainProbe"]),
            20 => assert_eq!(
                shown(&got[1..]),
                vec![
                    "NxdomainFlood { client: \"10.0.0.1\", server: \"10.0.0.53\", count: 20, \
                     window_sec: 10, sample_names: [\"h1.evil.example\", \"h2.evil.example\", \
                     \"h3.evil.example\", \"h4.evil.example\", \"h5.evil.example\"] }"
                ]
            ),
            _ => assert_eq!(kinds(&got), vec!["ResponseReceived"]),
        }
    }
}

#[test]
fn responses_outside_the_window_make_no_flood() {
    let mut a = Analyzer::new();
    for i in 1..=40u16 {
        let got = ask_for_nothing(&mut a, i, SERVER, at(i as u32, 0));
        assert!(!kinds(&got).contains(&"NxdomainFlood".to_string()));
    }
}

#[test]
fn window_holds_its_far_edge() {
    let mut a = Analyzer::new();
    let mut b = Analyzer::new();
    ask_for_nothing(&mut a, 1, SERVER, at(0, 0));
    ask_for_nothing(&mut b, 1, SERVER, at(0, 0));
    for i in 2..=19u16 {
        ask_for_nothing(&mut a, i, SERVER, at(10, 0));
        ask_for_nothing(&mut b, i, SERVER, at(10, 1));
    }
    let edge = ask_for_nothing(&mut a, 20, SERVER, at(10, 0));
    assert_eq!(kinds(&edge), vec!["ResponseReceived", "NxdomainFlood"]);
    let beyond = ask_for_nothing(&mut b, 20, SERVER, at(10, 1));
    assert_eq!(kinds(&beyond), vec!["ResponseReceived"]);
}

#[test]
fn servers_are_tracked_apart() {
    let mut a = Analyzer::new();
    for i in 1..=4u16 {
        assert_eq!(ask_for_nothing(&mut a, i, SERVER, at(0, 0)).len(), 1);
        assert_eq!(ask_for_nothing(&mut a, 100 + i, "10.0.0.54", at(0, 0)).len(), 1);
    }
    assert_eq!(ask_for_nothing(&mut a, 5, SERVER, at(0, 0)).len(), 2);
    assert_eq!(ask_for_nothing(&mut a, 105, "10.0.0.54", at(0, 0)).len(), 2);
}

#[test]
fn unsolicited_nxdomain_is_not_tracked() {
    let mut a = Analyzer::new();
    for i in 1..=9u16 {
        let got = a.process(&response(i, "x", RCode::NXDomain), SERVER, CLIENT, at(0, 0));
        assert_eq!(kinds(&got), vec!["UnsolicitedResponse"]);
    }
}

fn answered_with(a: &mut Analyzer, txid: u16, records: Vec<DnsRecord>) -> Vec<DnsEvent> {
    a.process(&query(txid, "flux.example"), CLIENT, SERVER, at(0, 0));
    let mut pkt = response(txid, "flux.example", RCode::NoError);
    pkt.answers = records;
    a.process(&pkt, SERVER, CLIENT, at(0, 1))
}

#[test]
fn varying_ttl_is_reported_once() {
    let mut a = Analyzer::new();
    let got = answered_with(&mut a, 1, vec![answer("flux.example", QType::A, 3600)]);
    assert_eq!(kinds(&got), vec!["ResponseReceived"]);
    let got = answered_with(&mut a, 2, vec![answer("flux.example", QType::A, 361)]);
    assert_eq!(kinds(&got), vec!["ResponseReceived"]);
    let got = answered_with(&mut a, 3, vec![answer("flux.example", QType::A, 360)]);
    assert_eq!(kinds(&got), vec!["TtlAnomaly", "ResponseReceived"]);
    assert_eq!(
        shown(&got[..1]),
        vec![
            "TtlAnomaly { name: \"flux.example\", ttl_min: 360, ttl_max: 3600, \
             server: \"10.0.0.53\" }"
        ]
    );
    let got = answered_with(&mut a, 4, vec![answer("flux.example", QType::A, 5)]);
    assert_eq!(kinds(&got), vec!["ResponseReceived"]);
}

#[test]
fn times_to_live_within_one_response_count() {
    let mut a = Analyzer::new();
    let records = vec![
        answer("a.example", QType::A, 5),
        answer("b.example", QType::A, 3600),
        answer("a.example", QType::A, 3600),
        answer("a.example", QType::A, 7200),
    ];
    let got = answered_with(&mut a, 1, records);
    assert_eq!(
        shown(&got[..1]),
        vec![
            "TtlAnomaly { name: \"a.example\", ttl_min: 5, ttl_max: 3600, server: \"10.0.0.53\" }"
        ]
    );
    assert_eq!(got.len(), 2);
}

#[test]
fn zero_ttl_and_pseudo_records_do_not_count() {
    let mut a = Analyzer::new();
    let records = vec![
        answer("a.example", QType::A, 0),
        answer("a.example", QType::OPT, 1),
        answer("a.example", QType::A, 3600),
    ];
    assert_eq!(kinds(&answered_with(&mut a, 1, records)), vec!["ResponseReceived"]);
}

#[test]
fn ttl_of_an_unsolicited_response_counts() {
    let mut a = Analyzer::new();
    let mut pkt = response(1, "x", RCode::NoError);
    pkt.answers = vec![answer("x", QType::A, 1), answer("x", QType::A, u32::MAX)];
    let got = a.process(&pkt, SERVER, CLIENT, at(0, 0));
    assert_eq!(kinds(&got), vec!["TtlAnomaly", "UnsolicitedResponse"]);
}

#[test]
fn clients_and_names_are_counted_once() {
    let mut a = Analyzer::new();
    a.process(&query(1, "x"), "10.0.0.1", SERVER, at(0, 0));
    a.process(&query(2, "x"), "10.0.0.2", SERVER, at(0, 0));
    a.process(&query(3, "y"), "10.0.0.1", SERVER, at(0, 0));
    a.process(&query(3, "z"), "10.0.0.1", SERVER, at(0, 0));
    a.process(&response(3, "other", RCode::NoError), SERVER, "10.0.0.9", at(0, 0));
    assert_eq!((a.unique_clients(), a.unique_names()), (2, 3));
}

#[test]
fn severities() {
    let mut a = Analyzer::new();
    let sent = a.process(&query(1, "x"), CLIENT, SERVER, at(0, 0));
    assert_eq!(classify_event(&sent[0]), Severity::Info);
    let got = a.process(&response(1, "x", RCode::NoError), SERVER, CLIENT, at(0, 0));
    assert_eq!(classify_event(&got[0]), Severity::Info);
    let stray = a.process(&response(1, "x", RCode::NoError), SERVER, CLIENT, at(0, 0));
    assert_eq!(classify_event(&stray[0]), Severity::Warning);
    let text = String::new;
    let timeout = DnsEvent::QueryTimeout {
        txid: 0,
        client: text(),
        server: text(),
        name: text(),
        qtype: text(),
    };
    let cut = DnsEvent::TruncatedResponse { txid: 0, client: text(), server: text(), name: text() };
    let again = DnsEvent::QueryRetransmit { txid: 0, client: text(), name: text(), count: 3 };
    let ttl = DnsEvent::TtlAnomaly { name: text(), ttl_min: 1, ttl_max: 10, server: text() };
    for event in [timeout, cut, again, ttl] {
        assert_eq!(classify_event(&event), Severity::Warning);
    }
    let flood = DnsEvent::NxdomainFlood {
        client: text(),
        server: text(),
        count: 20,
        window_sec: 10,
        sample_names: vec![],
    };
    let probe =
        DnsEvent::SlowNxdomainProbe { client: text(), server: text(), count: 5, names: vec![] };
    let tunnel = DnsEvent::TunnelingIndicator {
        client: text(),
        name: text(),
        qtype: text(),
        reason: text(),
    };
    let twice = DnsEvent::DuplicateResponse {
        txid: 0,
        name: text(),
        first_src: text(),
        second_src: text(),
    };
    for event in [flood, probe, tunnel, twice] {
        assert_eq!(classify_event(&event), Severity::Critical);
    }
}

#[test]
fn microseconds_of_a_timestamp() {
    assert_eq!(at(0, 0).micros(), 0);
    assert_eq!(at(3, 7).micros(), 3_000_007);
    assert_eq!(at(u32::MAX, u32::MAX).micros(), 4_294_967_295 * 1_000_000 + 4_294_967_295);
}
