use dns_postmortem::address::{dotted_text, grouped_text};
use dns_postmortem::answered::AnsweredTable;
use dns_postmortem::event::{DnsEvent, TimedEvent, Timestamp};
use dns_postmortem::nxdomain::NxdomainTracker;
use dns_postmortem::report::{push_events, summarize};
use dns_postmortem::text::{chars_of, decimal_text, hex_text, join_texts, same_text, utf8_width};
use dns_postmortem::wire::{read_be16, read_be32};

fn at(sec: u32, usec: u32) -> Timestamp {
    Timestamp { sec, usec }
}

#[test]
fn numerals() {
    assert_eq!(decimal_text(0), "0");
    assert_eq!(decimal_text(9), "9");
    assert_eq!(decimal_text(10), "10");
    assert_eq!(decimal_text(u64::MAX), u64::MAX.to_string());
    assert_eq!(hex_text(0), "0");
    assert_eq!(hex_text(0xdb8), "db8");
    assert_eq!(hex_text(0xabcdef0123456789), "abcdef0123456789");
}

#[test]
fn joined_texts() {
    let parts = |items: &[&str]| items.iter().map(|s| s.to_string()).collect::<Vec<String>>();
    assert_eq!(join_texts(&parts(&[]), "."), "");
    assert_eq!(join_texts(&parts(&["a"]), "."), "a");
    assert_eq!(join_texts(&parts(&["a", "", "c"]), "--"), "a----c");
}

#[test]
fn texts_and_characters() {
    assert!(same_text("é", "é"));
    assert!(!same_text("é", "e"));
    assert!(!same_text("abc", "ab"));
    assert!(same_text("", ""));
    assert_eq!(chars_of("aé"), vec!['a', 'é']);
    for c in ['a', 'é', '–', '𝄞'] {
        assert_eq!(utf8_width(c), c.len_utf8());
    }
}

#[test]
fn big_endian_numbers() {
    let data = [0x12, 0x34, 0x56, 0x78, 0x9A];
    assert_eq!(read_be16(&data, 1), 0x3456);
    assert_eq!(read_be32(&data, 1), 0x3456_789A);
}

#[test]
fn address_forms() {
    assert_eq!(dotted_text(&[255, 0, 10, 1]), "255.0.10.1");
    let v6 = [0xfe, 0x80, 0, 0, 0, 0, 0, 0, 0, 0, 0, 0, 0, 0x0a, 0xff, 0xff];
    assert_eq!(grouped_text(&v6), "fe80:0:0:0:0:0:a:ffff");
}

#[test]
fn tracker_counts_and_names_what_is_recent() {
    let mut tracker = NxdomainTracker::new();
    for (sec, name) in [(0, "a"), (5, "b"), (11, "c"), (30, "d")] {
        tracker.add(at(sec, 0), name.to_string());
    }
    assert_eq!(tracker.count_in_window(at(12, 0)), 3);
    assert_eq!(tracker.recent_names(at(12, 0), 2), vec!["b", "c"]);
    assert_eq!(tracker.recent_names(at(12, 0), 9), vec!["b", "c", "d"]);
    assert!(tracker.recent_names(at(12, 0), 0).is_empty());
    assert_eq!(tracker.count_in_window(at(41, 0)), 0);
    assert_eq!(tracker.all_names(), vec!["a", "b", "c", "d"]);
    assert!(tracker.report("c", "s", at(12, 0)).is_empty());
}

#[test]
fn answered_transactions_are_told_apart() {
    let mut table = AnsweredTable::new();
    assert_eq!(table.first_src(1, "c"), None);
    table.insert(1, "c", "x");
    table.insert(1, "d", "y");
    table.insert(2, "c", "z");
    assert_eq!(table.first_src(1, "c"), Some("x"));
    assert_eq!(table.first_src(1, "d"), Some("y"));
    assert_eq!(table.first_src(2, "c"), Some("z"));
    assert_eq!(table.first_src(2, "d"), None);
    table.insert(1, "c", "w");
    assert_eq!(table.first_src(1, "c"), Some("w"));
    assert_eq!(table.first_src(1, "d"), Some("y"));
}

fn received(rcode: &str) -> DnsEvent {
    DnsEvent::ResponseReceived {
        txid: 1,
        client: String::new(),
        server: String::new(),
        name: String::new(),
        qtype: String::new(),
        rcode: rcode.to_string(),
        answer_count: 0,
        latency_us: 0,
    }
}

#[test]
fn events_are_counted() {
    let mut events: Vec<TimedEvent> = Vec::new();
    push_events(vec![received("NXDOMAIN"), received("NOERROR")], at(1, 0), &mut events);
    let stray = DnsEvent::UnsolicitedResponse {
        txid: 1,
        src: String::new(),
        name: String::new(),
        rcode: "NXDOMAIN".to_string(),
    };
    push_events(vec![stray, received("SERVFAIL"), received("SERVFAIL")], at(2, 0), &mut events);
    push_events(vec![], at(3, 0), &mut events);
    let times: Vec<u32> = events.iter().map(|e| e.ts.sec).collect();
    assert_eq!(times, vec![1, 1, 2, 2, 2]);
    let sum = summarize(&events, 4, 5);
    assert_eq!(sum.total_queries, 0);
    assert_eq!(sum.total_responses, 4);
    assert_eq!(sum.nxdomain_count, 1);
    assert_eq!(sum.servfail_count, 2);
    assert_eq!(sum.timeout_count, 0);
    assert_eq!(sum.anomalies, 1);
    assert_eq!((sum.unique_clients, sum.unique_names), (4, 5));
}
