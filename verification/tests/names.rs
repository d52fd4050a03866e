use dns_postmortem::dns::{decode_name, decode_name_inner, DnsPacket, DnsQuestion, QType, RCode};

fn encode(labels: &[&str]) -> Vec<u8> {
    let mut bytes: Vec<u8> = Vec::new();
    for label in labels {
        bytes.push(label.len() as u8);
        bytes.extend_from_slice(label.as_bytes());
    }
    bytes.push(0);
    bytes
}

fn asking_for(name: &str) -> DnsPacket {
    DnsPacket {
        txid: 1,
        is_response: false,
        opcode: 0,
        aa: false,
        truncated: false,
        rd: true,
        ra: false,
        rcode: RCode::NoError,
        questions: vec![DnsQuestion { name: name.to_string(), qtype: QType::A, qclass: 1 }],
        answers: vec![],
        authority: vec![],
        additional: vec![],
        edns: None,
    }
}

#[test]
fn plain_name_is_read_back_wherever_it_stands() {
    let mut data = vec![0xFF, 0xFE, 0xFD];
    data.extend_from_slice(&encode(&["www", "example", "com"]));
    data.push(0x77);
    assert_eq!(decode_name(&data, 3), Some(("www.example.com".to_string(), 20)));
}

#[test]
fn root_name_is_empty() {
    assert_eq!(decode_name(&[0], 0), Some((String::new(), 1)));
}

#[test]
fn label_of_several_bytes_per_character_is_read() {
    let data = encode(&["bücher", "example"]);
    assert_eq!(decode_name(&data, 0), Some(("bücher.example".to_string(), data.len())));
}

#[test]
fn label_that_is_not_utf8_is_rejected() {
    assert_eq!(decode_name(&[2, 0xC3, 0x28, 0], 0), None);
}

#[test]
fn pointer_stands_for_its_target() {
    let mut data = encode(&["example", "com"]);
    let start = data.len();
    data.extend_from_slice(&[3, b'w', b'w', b'w', 0xC0, 0x00]);
    assert_eq!(decode_name(&data, start), Some(("www.example.com".to_string(), start + 6)));
    let bare = data.len();
    data.extend_from_slice(&[0xC0, 0x00]);
    assert_eq!(decode_name(&data, bare), Some(("example.com".to_string(), bare + 2)));
}

#[test]
fn pointer_to_the_root_adds_nothing() {
    let data = vec![0, 1, b'a', 0xC0, 0x00];
    assert_eq!(decode_name(&data, 1), Some(("a".to_string(), 5)));
}

#[test]
fn pointer_to_itself_is_rejected() {
    assert_eq!(decode_name(&[0xC0, 0x00], 0), None);
}

#[test]
fn pointer_to_the_start_of_its_run_is_rejected() {
    assert_eq!(decode_name(&[1, b'a', 0xC0, 0x00, 0], 0), None);
}

#[test]
fn pointer_loop_is_rejected() {
    let data = vec![0xC0, 0x02, 0xC0, 0x04, 0xC0, 0x00];
    assert_eq!(decode_name(&data, 0), None);
    let with_labels = vec![1, b'a', 0xC0, 0x04, 1, b'b', 0xC0, 0x00];
    assert_eq!(decode_name(&with_labels, 0), None);
    assert_eq!(decode_name(&with_labels, 4), None);
}

fn pointer_chain(hops: usize) -> Vec<u8> {
    let mut data = vec![1, b'z', 0];
    for hop in 0..hops {
        let target: usize = if hop == 0 { 0 } else { 3 + 2 * (hop - 1) };
        data.push(0xC0);
        data.push(target as u8);
    }
    data
}

#[test]
fn ten_pointers_are_followed_and_eleven_are_not() {
    let ten = pointer_chain(10);
    assert_eq!(decode_name(&ten, ten.len() - 2), Some(("z".to_string(), ten.len())));
    let eleven = pointer_chain(11);
    assert_eq!(decode_name(&eleven, eleven.len() - 2), None);
}

#[test]
fn pointers_followed_before_count() {
    let data = pointer_chain(3);
    let last = data.len() - 2;
    for depth in 0..=7 {
        assert_eq!(decode_name_inner(&data, last, depth), decode_name(&data, last));
        assert_eq!(
            decode_name_inner(&data, last, depth).map(|(name, _)| name),
            decode_name_inner(&data, last - 2, depth + 1).map(|(name, _)| name)
        );
    }
    assert_eq!(decode_name_inner(&data, last, 8), None);
    assert_eq!(decode_name_inner(&data, 0, 10), Some(("z".to_string(), 3)));
    assert_eq!(decode_name_inner(&data, 0, 11), None);
}

#[test]
fn pointer_beyond_the_message_is_rejected() {
    assert_eq!(decode_name(&[0xC0, 0x10, 0], 0), None);
}

#[test]
fn name_that_is_cut_off_is_rejected() {
    assert_eq!(decode_name(&[], 0), None);
    assert_eq!(decode_name(&[3, b'w', b'w'], 0), None);
    assert_eq!(decode_name(&[3, b'w', b'w', b'w'], 0), None);
    assert_eq!(decode_name(&[0xC0], 0), None);
    assert_eq!(decode_name(&[0], 1), None);
}

#[test]
fn reserved_label_types_are_rejected() {
    assert_eq!(decode_name(&[0x40, 0, 0], 0), None);
    assert_eq!(decode_name(&[0x80, 0, 0], 0), None);
}

#[test]
fn longest_name_is_read_and_a_longer_one_is_not() {
    let label = "a".repeat(50);
    let five: Vec<&str> = vec![label.as_str(); 5];
    let data = encode(&five);
    assert_eq!(data.len(), 256);
    let (name, end) = decode_name(&data, 0).unwrap();
    assert_eq!(name.len(), 254);
    assert_eq!(end, 256);
    let mut six = five.clone();
    six.push("b");
    assert_eq!(decode_name(&encode(&six), 0), None);
}

#[test]
fn limit_holds_for_a_name_with_a_pointer() {
    let label = "a".repeat(63);
    let mut data = encode(&[label.as_str(), label.as_str()]);
    let start = data.len();
    data.push(63);
    data.extend_from_slice(label.as_bytes());
    data.extend_from_slice(&[0xC0, 0x00]);
    let (name, _) = decode_name(&data, start).unwrap();
    assert_eq!(name.len(), 3 * 63 + 2);
    let longer = data.len();
    data.push(63);
    data.extend_from_slice(label.as_bytes());
    data.push(0xC0);
    data.push(start as u8);
    assert_eq!(decode_name(&data, longer), None);
}

#[test]
fn long_labels_and_long_names_are_suspicious() {
    assert!(!asking_for("www.example.com").has_long_labels());
    assert!(!asking_for(&format!("{}.example.com", "a".repeat(30))).has_long_labels());
    assert!(asking_for(&format!("{}.example.com", "a".repeat(31))).has_long_labels());
    assert!(asking_for(&format!("www.{}", "a".repeat(31))).has_long_labels());
    let hundred = format!("{}x", "abcdefghi.".repeat(9)) + "abcdefghi";
    assert_eq!(hundred.len(), 100);
    assert!(!asking_for(&hundred).has_long_labels());
    assert!(asking_for(&format!("y{}", hundred)).has_long_labels());
    assert!(asking_for(&format!("{}.com", "é".repeat(16))).has_long_labels());
    assert!(!asking_for(&format!("{}.com", "é".repeat(15))).has_long_labels());
}

#[test]
fn first_question_is_the_one_that_counts() {
    let mut pkt = asking_for("first.example");
    pkt.questions.push(DnsQuestion {
        name: "second.example".to_string(),
        qtype: QType::MX,
        qclass: 1,
    });
    assert_eq!(pkt.first_question_name(), Some("first.example"));
    assert_eq!(pkt.first_qtype(), Some(&QType::A));
    pkt.questions.clear();
    assert_eq!(pkt.first_question_name(), None);
    assert_eq!(pkt.first_qtype(), None);
    assert!(!pkt.has_long_labels());
}
