//! From Ethernet frames to the payloads of UDP datagrams and TCP segments.

use vstd::prelude::*;

use crate::address;
use crate::wire;

verus! {

/// IP protocol number of UDP.
pub const PROTO_UDP: u8 = 17;

/// IP protocol number of TCP.
pub const PROTO_TCP: u8 = 6;

/// EtherType of IPv4.
pub const ETHERTYPE_IP: u16 = 0x0800;

/// EtherType of a VLAN tag (802.1Q).
pub const ETHERTYPE_8021Q: u16 = 0x8100;

/// The well-known port of DNS.
pub const DNS_PORT: u16 = 53;

/// What the analysis needs of an IPv4 header.
#[derive(Debug, Clone)]
pub struct IpHeader {
    pub src: [u8; 4],
    pub dst: [u8; 4],
    pub protocol: u8,
    pub ttl: u8,
}

/// What an [`IpHeader`] says.
pub struct IpModel {
    pub src: Seq<u8>,
    pub dst: Seq<u8>,
    pub protocol: u8,
    pub ttl: u8,
}

impl View for IpHeader {
    type V = IpModel;

    open spec fn view(&self) -> IpModel {
        IpModel { src: self.src@, dst: self.dst@, protocol: self.protocol, ttl: self.ttl }
    }
}

impl IpHeader {
    /// The source address in dotted decimal form.
    pub fn src_str(&self) -> (res: String)
        ensures
            res@ == address::dotted(self@.src),
    {
        address::dotted_text(self.src.as_slice())
    }

    /// The destination address in dotted decimal form.
    pub fn dst_str(&self) -> (res: String)
        ensures
            res@ == address::dotted(self@.dst),
    {
        address::dotted_text(self.dst.as_slice())
    }
}

/// Where the IP packet starts in an Ethernet frame: behind the addresses and the
/// EtherType, and behind one VLAN tag where there is one.
pub open spec fn ip_start(frame: Seq<u8>) -> Option<int> {
    if frame.len() < 14 {
        None
    } else if wire::be16(frame, 12) == ETHERTYPE_IP {
        Some(14)
    } else if wire::be16(frame, 12) == ETHERTYPE_8021Q && frame.len() >= 18 && wire::be16(frame, 16)
        == ETHERTYPE_IP {
        Some(18)
    } else {
        None
    }
}

/// The IP packet that an Ethernet frame carries.
pub open spec fn frame_payload(frame: Seq<u8>) -> Option<Seq<u8>> {
    match ip_start(frame) {
        Some(start) => Some(frame.skip(start)),
        None => None,
    }
}

/// Strips the Ethernet header, with a VLAN tag where there is one, off an IP packet.
pub fn strip_ethernet(input: &[u8]) -> (res: Option<&[u8]>)
    ensures
        match frame_payload(input@) {
            Some(payload) => res matches Some(p) && p@ == payload,
            None => res is None,
        },
{
    if input.len() < 14 {
        return None;
    }
    let ethertype: u16 = wire::read_be16(input, 12);
    if ethertype == ETHERTYPE_IP {
        Some(vstd::slice::slice_subrange(input, 14, input.len()))
    } else if ethertype == ETHERTYPE_8021Q {
        if input.len() < 18 {
            return None;
        }
        let inner: u16 = wire::read_be16(input, 16);
        if inner == ETHERTYPE_IP {
            Some(vstd::slice::slice_subrange(input, 18, input.len()))
        } else {
            None
        }
    } else {
        None
    }
}

/// The length of the IP header, which the low half of the first byte gives in
/// words of four bytes.
pub open spec fn ip_header_len(data: Seq<u8>) -> int {
    (data[0] % 16) * 4
}

/// The length of the IP payload: what the total length leaves behind the header.
pub open spec fn ip_payload_len(data: Seq<u8>) -> int {
    if wire::be16(data, 2) >= ip_header_len(data) {
        wire::be16(data, 2) - ip_header_len(data)
    } else {
        0
    }
}

/// The header and the payload of an IP packet; bytes behind the payload are
/// left out.
pub open spec fn ip_packet(data: Seq<u8>) -> Option<(IpModel, Seq<u8>)> {
    if data.len() < 20 || ip_header_len(data) < 20 || data.len() < ip_header_len(data)
        + ip_payload_len(data) {
        None
    } else {
        Some(
            (
                IpModel {
                    src: data.subrange(12, 16),
                    dst: data.subrange(16, 20),
                    protocol: data[9],
                    ttl: data[8],
                },
                data.subrange(ip_header_len(data), ip_header_len(data) + ip_payload_len(data)),
            ),
        )
    }
}

fn parse_ip_header(data: &[u8]) -> (res: Option<(IpHeader, &[u8])>)
    ensures
        match ip_packet(data@) {
            Some((header, payload)) => res matches Some((h, p)) && h@ == header && p@ == payload,
            None => res is None,
        },
{
    if data.len() < 20 {
        return None;
    }
    let first: u8 = data[0];
    assert((first & 0x0f) == first % 16) by (bit_vector);
    let ihl: usize = (first & 0x0f) as usize * 4;
    if ihl < 20 {
        return None;
    }
    let total_len: usize = wire::read_be16(data, 2) as usize;
    let payload_len: usize = total_len.saturating_sub(ihl);
    if data.len() < ihl || data.len() - ihl < payload_len {
        return None;
    }
    let header = IpHeader {
        src: [data[12], data[13], data[14], data[15]],
        dst: [data[16], data[17], data[18], data[19]],
        protocol: data[9],
        ttl: data[8],
    };
    assert(header.src@ =~= data@.subrange(12, 16));
    assert(header.dst@ =~= data@.subrange(16, 20));
    Some((header, vstd::slice::slice_subrange(data, ihl, ihl + payload_len)))
}

/// The IP packet in an Ethernet frame, as header and payload.
pub open spec fn ip_in_frame(frame: Seq<u8>) -> Option<(IpModel, Seq<u8>)> {
    match frame_payload(frame) {
        Some(data) => ip_packet(data),
        None => None,
    }
}

/// Takes the IP header and payload out of an Ethernet frame.
pub fn extract_ip(frame: &[u8]) -> (res: Option<(IpHeader, &[u8])>)
    ensures
        match ip_in_frame(frame@) {
            Some((header, payload)) => res matches Some((h, p)) && h@ == header && p@ == payload,
            None => res is None,
        },
{
    match strip_ethernet(frame) {
        Some(data) => parse_ip_header(data),
        None => None,
    }
}

/// The ports and the payload of a UDP datagram: source, destination, and what the
/// length field leaves behind the header.
pub open spec fn udp_datagram(data: Seq<u8>) -> Option<(u16, u16, Seq<u8>)> {
    if data.len() < 8 || wire::be16(data, 4) < 8 || wire::be16(data, 4) > data.len() {
        None
    } else {
        Some(
            (
                wire::be16(data, 0),
                wire::be16(data, 2),
                data.subrange(8, wire::be16(data, 4) as int),
            ),
        )
    }
}

/// Takes the source port, the destination port and the payload out of a UDP datagram.
pub fn extract_udp(payload: &[u8]) -> (res: Option<(u16, u16, &[u8])>)
    ensures
        match udp_datagram(payload@) {
            Some((src, dst, data)) => {
                res matches Some((s, d, p)) && s == src && d == dst && p@ == data
            },
            None => res is None,
        },
{
    if payload.len() < 8 {
        return None;
    }
    let src_port: u16 = wire::read_be16(payload, 0);
    let dst_port: u16 = wire::read_be16(payload, 2);
    let length: usize = wire::read_be16(payload, 4) as usize;
    if length < 8 || length > payload.len() {
        return None;
    }
    Some((src_port, dst_port, vstd::slice::slice_subrange(payload, 8, length)))
}

/// What the analysis needs of a TCP segment.
pub struct TcpSegment<'a> {
    pub src_port: u16,
    pub dst_port: u16,
    /// What is behind the header and its options.
    pub payload: &'a [u8],
}

/// The length of the TCP header, which the high half of its byte 12 gives in
/// words of four bytes.
pub open spec fn tcp_header_len(data: Seq<u8>) -> int {
    (data[12] / 16) * 4
}

/// The ports and the payload of a TCP segment.
pub open spec fn tcp_segment(data: Seq<u8>) -> Option<(u16, u16, Seq<u8>)> {
    if data.len() < 20 || tcp_header_len(data) < 20 || tcp_header_len(data) > data.len() {
        None
    } else {
        Some((wire::be16(data, 0), wire::be16(data, 2), data.skip(tcp_header_len(data))))
    }
}

/// Takes the ports and the payload out of a TCP segment, past any options.
pub fn extract_tcp(payload: &[u8]) -> (res: Option<TcpSegment<'_>>)
    ensures
        match tcp_segment(payload@) {
            Some((src, dst, data)) => {
                &&& res matches Some(segment)
                &&& segment.src_port == src
                &&& segment.dst_port == dst
                &&& segment.payload@ == data
            },
            None => res is None,
        },
{
    if payload.len() < 20 {
        return None;
    }
    let src_port: u16 = wire::read_be16(payload, 0);
    let dst_port: u16 = wire::read_be16(payload, 2);
    let offset_byte: u8 = payload[12];
    assert((offset_byte >> 4) == offset_byte / 16) by (bit_vector);
    let data_off: usize = (offset_byte >> 4) as usize * 4;
    if data_off < 20 || data_off > payload.len() {
        return None;
    }
    Some(
        TcpSegment {
            src_port,
            dst_port,
            payload: vstd::slice::slice_subrange(payload, data_off, payload.len()),
        },
    )
}

/// Whether one of two ports is that of DNS.
pub fn is_dns_port(src: u16, dst: u16) -> (res: bool)
    ensures
        res == (src == DNS_PORT || dst == DNS_PORT),
{
    src == DNS_PORT || dst == DNS_PORT
}

} // verus!
