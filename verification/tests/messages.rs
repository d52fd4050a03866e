use dns_postmortem::dns::{
    parse_dns, parse_dns_tcp, parse_question, parse_record, DnsPacket, QType, RCode,
};

fn name(labels: &[&str]) -> Vec<u8> {
    let mut bytes: Vec<u8> = Vec::new();
    for label in labels {
        bytes.push(label.len() as u8);
        bytes.extend_from_slice(label.as_bytes());
    }
    bytes.push(0);
    bytes
}

fn header(txid: u16, flags: u16, counts: [u16; 4]) -> Vec<u8> {
    let mut bytes: Vec<u8> = Vec::new();
    for v in [txid, flags, counts[0], counts[1], counts[2], counts[3]] {
        bytes.extend_from_slice(&v.to_be_bytes());
    }
    bytes
}

fn record(owner: &[u8], rtype: u16, rclass: u16, ttl: u32, rdata: &[u8]) -> Vec<u8> {
    let mut bytes = owner.to_vec();
    bytes.extend_from_slice(&rtype.to_be_bytes());
    bytes.extend_from_slice(&rclass.to_be_bytes());
    bytes.extend_from_slice(&ttl.to_be_bytes());
    bytes.extend_from_slice(&(rdata.len() as u16).to_be_bytes());
    bytes.extend_from_slice(rdata);
    bytes
}

fn question(labels: &[&str], qtype: u16) -> Vec<u8> {
    let mut bytes = name(labels);
    bytes.extend_from_slice(&qtype.to_be_bytes());
    bytes.extend_from_slice(&1u16.to_be_bytes());
    bytes
}

fn response() -> Vec<u8> {
    let mut data = header(0xBEEF, 0x8180, [1, 3, 1, 2]);
    data.extend_from_slice(&question(&["www", "example", "com"], 1));
    let pointer = [0xC0, 12];
    data.extend_from_slice(&record(&pointer, 5, 1, 300, &[3, b'c', b'd', b'n', 0xC0, 16]));
    data.extend_from_slice(&record(&pointer, 1, 1, 60, &[192, 0, 2, 1]));
    let v6 = [0x20, 0x01, 0x0d, 0xb8, 0, 0, 0, 0, 0, 0, 0, 0, 0, 0, 0, 1];
    data.extend_from_slice(&record(&pointer, 28, 1, 60, &v6));
    data.extend_from_slice(&record(&[0xC0, 16], 2, 1, 3600, &name(&["ns", "example", "org"])));
    data.extend_from_slice(&record(&[0], 41, 1232, 0x0100_8000, &[]));
    data.extend_from_slice(&record(&pointer, 16, 1, 5, b"\x02hi"));
    data
}

fn check_response(pkt: &DnsPacket) {
    assert_eq!(pkt.txid, 0xBEEF);
    assert!(pkt.is_response);
    assert_eq!(pkt.opcode, 0);
    assert!(!pkt.aa);
    assert!(!pkt.truncated);
    assert!(pkt.rd);
    assert!(pkt.ra);
    assert_eq!(pkt.rcode, RCode::NoError);
    assert_eq!(pkt.questions.len(), 1);
    assert_eq!(pkt.questions[0].name, "www.example.com");
    assert_eq!(pkt.questions[0].qtype, QType::A);
    assert_eq!(pkt.questions[0].qclass, 1);
    assert_eq!(pkt.answers.len(), 3);
    assert_eq!(pkt.answers[0].rtype, QType::CNAME);
    assert_eq!(pkt.answers[0].ttl, 300);
    assert_eq!(pkt.answers[0].parsed_name.as_deref(), Some("cdn.example.com"));
    assert_eq!(pkt.answers[0].parsed_addr, None);
    assert_eq!(pkt.answers[1].name, "www.example.com");
    assert_eq!(pkt.answers[1].rclass, 1);
    assert_eq!(pkt.answers[1].rdata, vec![192, 0, 2, 1]);
    assert_eq!(pkt.answers[1].parsed_addr.as_deref(), Some("192.0.2.1"));
    assert_eq!(pkt.answers[1].parsed_name, None);
    assert_eq!(pkt.answers[2].parsed_addr.as_deref(), Some("2001:db8:0:0:0:0:0:1"));
    assert_eq!(pkt.authority.len(), 1);
    assert_eq!(pkt.authority[0].name, "example.com");
    assert_eq!(pkt.authority[0].parsed_name.as_deref(), Some("ns.example.org"));
    assert_eq!(pkt.additional.len(), 1);
    assert_eq!(pkt.additional[0].rtype, QType::TXT);
    let edns = pkt.edns.as_ref().unwrap();
    assert_eq!(edns.udp_payload_size, 1232);
    assert_eq!(edns.ext_rcode, 1);
    assert_eq!(edns.version, 0);
    assert!(edns.dnssec_ok);
}

#[test]
fn response_is_parsed_in_all_its_sections() {
    check_response(&parse_dns(&response()).unwrap());
}

#[test]
fn message_behind_its_length_is_the_same() {
    let msg = response();
    let mut framed = (msg.len() as u16).to_be_bytes().to_vec();
    framed.extend_from_slice(&msg);
    framed.extend_from_slice(&[1, 2, 3]);
    check_response(&parse_dns_tcp(&framed).unwrap());
}

#[test]
fn tcp_payload_that_ends_too_early_is_rejected() {
    let msg = response();
    let mut framed = (msg.len() as u16).to_be_bytes().to_vec();
    framed.extend_from_slice(&msg[..msg.len() - 1]);
    assert!(parse_dns_tcp(&framed).is_none());
    assert!(parse_dns_tcp(&[0]).is_none());
    assert!(parse_dns_tcp(&[]).is_none());
}

#[test]
fn question_message_is_read_back() {
    let mut data = header(0x1234, 0x0100, [1, 0, 0, 0]);
    data.extend_from_slice(&question(&["mail", "example", "net"], 15));
    let pkt = parse_dns(&data).unwrap();
    assert_eq!(pkt.txid, 0x1234);
    assert!(!pkt.is_response);
    assert!(pkt.rd);
    assert_eq!(pkt.questions[0].name, "mail.example.net");
    assert_eq!(pkt.questions[0].qtype, QType::MX);
    assert!(pkt.answers.is_empty());
    assert!(pkt.edns.is_none());
}

#[test]
fn flags_are_taken_apart() {
    let data = header(7, 0xFFFF, [0, 0, 0, 0]);
    let pkt = parse_dns(&data).unwrap();
    assert!(pkt.is_response && pkt.aa && pkt.truncated && pkt.rd && pkt.ra);
    assert_eq!(pkt.opcode, 15);
    assert_eq!(pkt.rcode, RCode::Other(15));
    let status = parse_dns(&header(7, 0x1003, [0, 0, 0, 0])).unwrap();
    assert_eq!(status.opcode, 2);
    assert_eq!(status.rcode, RCode::NXDomain);
    assert!(!status.is_response);
}

#[test]
fn message_shorter_than_a_header_is_rejected() {
    assert!(parse_dns(&header(1, 0, [0, 0, 0, 0])[..11]).is_none());
    assert!(parse_dns(&[]).is_none());
    assert!(parse_dns(&header(1, 0, [0, 0, 0, 0])).is_some());
}

#[test]
fn message_with_too_many_entries_is_rejected() {
    for counts in [[11, 0, 0, 0], [0, 501, 0, 0], [0, 0, 101, 0], [0, 0, 0, 101]] {
        let mut data = header(1, 0, counts);
        data.extend_from_slice(&[0; 6000]);
        assert!(parse_dns(&data).is_none());
    }
    let mut data = header(1, 0x8000, [10, 500, 100, 100]);
    data.extend_from_slice(&[0; 11 * 710]);
    let pkt = parse_dns(&data).unwrap();
    assert_eq!(pkt.questions.len(), 10);
    assert_eq!(pkt.answers.len(), 500);
    assert_eq!(pkt.authority.len(), 100);
    assert_eq!(pkt.additional.len(), 100);
}

#[test]
fn message_that_is_cut_off_is_rejected() {
    let data = response();
    for len in 12..data.len() {
        assert!(parse_dns(&data[..len]).is_none());
    }
}

#[test]
fn last_pseudo_record_counts_and_none_is_kept() {
    let mut data = header(1, 0x8000, [0, 0, 0, 2]);
    data.extend_from_slice(&record(&[0], 41, 512, 0, &[]));
    data.extend_from_slice(&record(&[0], 41, 4096, 0x0203_0000, &[]));
    let pkt = parse_dns(&data).unwrap();
    assert!(pkt.additional.is_empty());
    let edns = pkt.edns.unwrap();
    assert_eq!(edns.udp_payload_size, 4096);
    assert_eq!(edns.ext_rcode, 2);
    assert_eq!(edns.version, 3);
    assert!(!edns.dnssec_ok);
}

#[test]
fn address_of_the_wrong_length_is_left_raw() {
    let mut data = header(1, 0x8000, [0, 2, 0, 0]);
    data.extend_from_slice(&record(&[0], 1, 1, 9, &[10, 0, 0]));
    data.extend_from_slice(&record(&[0], 28, 1, 9, &[10, 0, 0, 1]));
    let pkt = parse_dns(&data).unwrap();
    assert_eq!(pkt.answers[0].parsed_addr, None);
    assert_eq!(pkt.answers[0].rdata, vec![10, 0, 0]);
    assert_eq!(pkt.answers[1].parsed_addr, None);
}

#[test]
fn target_that_cannot_be_decoded_is_left_out() {
    let mut data = header(1, 0x8000, [0, 1, 0, 0]);
    data.extend_from_slice(&record(&[0], 5, 1, 9, &[0x80]));
    let pkt = parse_dns(&data).unwrap();
    assert_eq!(pkt.answers[0].rtype, QType::CNAME);
    assert_eq!(pkt.answers[0].parsed_name, None);
}

#[test]
fn type_codes_and_mnemonics() {
    let known = [
        (1, "A"), (2, "NS"), (5, "CNAME"), (6, "SOA"), (10, "NULL"), (12, "PTR"), (15, "MX"),
        (16, "TXT"), (28, "AAAA"), (33, "SRV"), (41, "OPT"), (255, "OTHER"), (0, "OTHER"),
    ];
    for (code, mnemonic) in known {
        assert_eq!(QType::from_u16(code).as_str(), mnemonic);
    }
    assert_eq!(QType::from_u16(255), QType::Other(255));
    assert_ne!(QType::from_u16(255), QType::from_u16(256));
}

#[test]
fn response_codes_and_mnemonics() {
    let known = [
        (0, "NOERROR"), (1, "FORMERR"), (2, "SERVFAIL"), (3, "NXDOMAIN"), (4, "NOTIMP"),
        (5, "REFUSED"), (6, "OTHER"),
    ];
    for (code, mnemonic) in known {
        assert_eq!(RCode::from_u8(code).as_str(), mnemonic);
    }
    assert_eq!(RCode::from_u8(9), RCode::Other(9));
}

#[test]
fn entries_are_parsed_where_they_stand() {
    let data = response();
    let (asked, end) = parse_question(&data, 12).unwrap();
    assert_eq!((asked.name.as_str(), end), ("www.example.com", 33));
    assert!(parse_question(&data[..32], 12).is_none());
    let (cname, next) = parse_record(&data, end).unwrap();
    assert_eq!(cname.parsed_name.as_deref(), Some("cdn.example.com"));
    assert_eq!(cname.rdata.len(), 6);
    assert_eq!(next, end + 2 + 10 + 6);
    assert!(parse_record(&data[..next - 1], end).is_none());
    assert!(parse_record(&data, data.len()).is_none());
}
