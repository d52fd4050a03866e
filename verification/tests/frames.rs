use dns_postmortem::net::{
    extract_ip, extract_tcp, extract_udp, is_dns_port, strip_ethernet, IpHeader, PROTO_TCP,
    PROTO_UDP,
};

fn ip_packet(protocol: u8, options: usize, payload: &[u8]) -> Vec<u8> {
    let header_len = 20 + options;
    let mut bytes = vec![0x40 | (header_len / 4) as u8, 0];
    bytes.extend_from_slice(&((header_len + payload.len()) as u16).to_be_bytes());
    bytes.extend_from_slice(&[0, 0, 0, 0, 64, protocol, 0, 0]);
    bytes.extend_from_slice(&[10, 0, 0, 1]);
    bytes.extend_from_slice(&[192, 168, 255, 53]);
    bytes.extend_from_slice(&vec![0; options]);
    bytes.extend_from_slice(payload);
    bytes
}

fn frame(ethertype: &[u8], packet: &[u8]) -> Vec<u8> {
    let mut bytes = vec![0x11; 12];
    bytes.extend_from_slice(ethertype);
    bytes.extend_from_slice(packet);
    bytes
}

#[test]
fn ip_packet_is_taken_out_of_a_frame() {
    let data = frame(&[0x08, 0x00], &ip_packet(PROTO_UDP, 0, b"payload"));
    let (ip, payload) = extract_ip(&data).unwrap();
    assert_eq!(ip.src_str(), "10.0.0.1");
    assert_eq!(ip.dst_str(), "192.168.255.53");
    assert_eq!(ip.protocol, PROTO_UDP);
    assert_eq!(ip.ttl, 64);
    assert_eq!(payload, b"payload");
}

#[test]
fn vlan_tag_makes_no_difference() {
    let packet = ip_packet(PROTO_TCP, 0, b"x");
    let plain = frame(&[0x08, 0x00], &packet);
    let tagged = frame(&[0x81, 0x00, 0x00, 0x2A, 0x08, 0x00], &packet);
    assert_eq!(strip_ethernet(&tagged), strip_ethernet(&plain));
    assert_eq!(strip_ethernet(&plain), Some(packet.as_slice()));
}

#[test]
fn frames_without_an_ip_packet_are_rejected() {
    assert_eq!(strip_ethernet(&[0; 13]), None);
    assert_eq!(strip_ethernet(&frame(&[0x08, 0x06], &[])), None);
    assert_eq!(strip_ethernet(&frame(&[0x81, 0x00, 0, 1, 0x08], &[])), None);
    assert_eq!(strip_ethernet(&frame(&[0x81, 0x00, 0, 1, 0x86, 0xDD], &[])), None);
    assert_eq!(strip_ethernet(&frame(&[0x08, 0x00], &[])), Some([].as_slice()));
    assert!(extract_ip(&frame(&[0x86, 0xDD], &ip_packet(PROTO_UDP, 0, b"x"))).is_none());
}

#[test]
fn ip_options_are_skipped_and_padding_is_ignored() {
    let mut packet = ip_packet(PROTO_UDP, 8, b"data");
    packet.extend_from_slice(&[0; 18]);
    let data = frame(&[0x08, 0x00], &packet);
    let (_, payload) = extract_ip(&data).unwrap();
    assert_eq!(payload, b"data");
}

#[test]
fn broken_ip_packets_are_rejected() {
    let packet = ip_packet(PROTO_UDP, 0, b"data");
    assert!(extract_ip(&frame(&[0x08, 0x00], &packet[..19])).is_none());
    assert!(extract_ip(&frame(&[0x08, 0x00], &packet[..packet.len() - 1])).is_none());
    let mut short_header = packet.clone();
    short_header[0] = 0x44;
    assert!(extract_ip(&frame(&[0x08, 0x00], &short_header)).is_none());
    let mut long_header = packet.clone();
    long_header[0] = 0x4F;
    assert!(extract_ip(&frame(&[0x08, 0x00], &long_header)).is_none());
}

#[test]
fn total_length_below_the_header_leaves_no_payload() {
    let mut packet = ip_packet(PROTO_UDP, 0, b"data");
    packet[2] = 0;
    packet[3] = 5;
    let data = frame(&[0x08, 0x00], &packet);
    let (_, payload) = extract_ip(&data).unwrap();
    assert!(payload.is_empty());
}

#[test]
fn udp_datagram_is_read_back() {
    let datagram = [0xD4, 0x31, 0, 53, 0, 11, 0xAB, 0xCD, 1, 2, 3, 9, 9];
    assert_eq!(extract_udp(&datagram), Some((0xD431, 53, [1u8, 2, 3].as_slice())));
}

#[test]
fn broken_udp_datagrams_are_rejected() {
    assert_eq!(extract_udp(&[0; 7]), None);
    assert_eq!(extract_udp(&[0, 1, 0, 2, 0, 7, 0, 0]), None);
    assert_eq!(extract_udp(&[0, 1, 0, 2, 0, 9, 0, 0]), None);
    assert_eq!(extract_udp(&[0, 1, 0, 2, 0, 8, 0, 0]), Some((1, 2, [].as_slice())));
}

#[test]
fn tcp_options_are_skipped() {
    let mut segment = vec![0, 53, 0xC0, 0x00];
    segment.extend_from_slice(&[0; 8]);
    segment.push(0x60);
    segment.extend_from_slice(&[0; 7]);
    segment.extend_from_slice(&[7, 7, 7, 7]);
    segment.extend_from_slice(b"abc");
    let seg = extract_tcp(&segment).unwrap();
    assert_eq!((seg.src_port, seg.dst_port), (53, 0xC000));
    assert_eq!(seg.payload, b"abc");
}

#[test]
fn broken_tcp_segments_are_rejected() {
    assert!(extract_tcp(&[0; 19]).is_none());
    let mut segment = vec![0; 20];
    segment[12] = 0x40;
    assert!(extract_tcp(&segment).is_none());
    segment[12] = 0x60;
    assert!(extract_tcp(&segment).is_none());
    segment[12] = 0x50;
    assert!(extract_tcp(&segment).unwrap().payload.is_empty());
}

#[test]
fn either_port_may_be_that_of_dns() {
    assert!(is_dns_port(53, 40000));
    assert!(is_dns_port(40000, 53));
    assert!(!is_dns_port(40000, 5353));
}

#[test]
fn dotted_forms_tell_addresses_apart() {
    let text = |src: [u8; 4]| IpHeader { src, dst: [0, 0, 0, 0], protocol: 0, ttl: 0 }.src_str();
    assert_eq!(text([0, 9, 10, 255]), "0.9.10.255");
    assert_ne!(text([1, 11, 1, 1]), text([11, 1, 1, 1]));
    assert_ne!(text([1, 1, 11, 1]), text([1, 11, 1, 1]));
}
