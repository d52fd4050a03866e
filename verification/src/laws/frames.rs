//! Laws of frames, packets and addresses.

use vstd::prelude::*;

use crate::address;
use crate::laws::messages;
use crate::laws::numbers;
use crate::net;
use crate::text;
use crate::wire;

verus! {

/// A frame with a VLAN tag behind its addresses.
pub open spec fn tagged(frame: Seq<u8>, tag: Seq<u8>) -> Seq<u8> {
    frame.take(12) + seq![0x81u8, 0x00u8] + tag + frame.skip(12)
}

/// A VLAN tag makes no difference to the IP packet in a frame.
pub proof fn law_vlan_tag_is_transparent(frame: Seq<u8>, tag: Seq<u8>)
    requires
        frame.len() >= 14,
        frame[12] == 0x08,
        frame[13] == 0x00,
        tag.len() == 2,
    ensures
        net::frame_payload(tagged(frame, tag)) == net::frame_payload(frame),
        net::frame_payload(frame) == Some(frame.skip(14)),
{
    let outer = tagged(frame, tag);
    assert(outer[12] == 0x81 && outer[13] == 0x00);
    assert(outer[16] == frame[12]);
    assert(outer[17] == frame[13]);
    assert(outer.skip(18) =~= frame.skip(14));
}

/// A frame carries an IP packet where its type is that of IPv4, or that of a VLAN
/// tag with the type of IPv4 behind the tag; any other frame carries none.
pub proof fn law_frame_type_decides(addresses: Seq<u8>, t: (u8, u8), rest: Seq<u8>)
    requires
        addresses.len() == 12,
    ensures
        net::frame_payload(addresses + seq![t.0, t.1] + rest) == if t == (0x08u8, 0x00u8) {
            Some(rest)
        } else if t == (0x81u8, 0x00u8) && rest.len() >= 4 && rest[2] == 0x08 && rest[3] == 0x00 {
            Some(rest.skip(4))
        } else {
            None
        },
{
    let frame = addresses + seq![t.0, t.1] + rest;
    assert(frame[12] == t.0 && frame[13] == t.1);
    assert(frame.skip(14) =~= rest);
    if rest.len() >= 4 {
        assert(frame[16] == rest[2] && frame[17] == rest[3]);
        assert(frame.skip(18) =~= rest.skip(4));
    }
}

/// A frame shorter than its addresses and its type carries nothing.
pub proof fn law_short_frame_is_rejected(frame: Seq<u8>)
    requires
        frame.len() < 14,
    ensures
        net::frame_payload(frame) is None,
        net::ip_in_frame(frame) is None,
{
}

/// Bytes behind the end of an IP packet, such as the padding of a short frame,
/// make no difference to it.
pub proof fn law_padding_is_ignored(data: Seq<u8>, padding: Seq<u8>)
    requires
        net::ip_packet(data) is Some,
    ensures
        net::ip_packet(data + padding) == net::ip_packet(data),
{
    let longer = data + padding;
    let start = net::ip_header_len(data);
    let end = start + net::ip_payload_len(data);
    assert(longer.subrange(12, 16) =~= data.subrange(12, 16));
    assert(longer.subrange(16, 20) =~= data.subrange(16, 20));
    assert(longer.subrange(start, end) =~= data.subrange(start, end));
}

/// A UDP datagram.
pub open spec fn udp_bytes(src: u16, dst: u16, checksum: u16, data: Seq<u8>) -> Seq<u8> {
    messages::be_bytes(src) + messages::be_bytes(dst) + messages::be_bytes(
        (8 + data.len()) as u16,
    ) + messages::be_bytes(checksum) + data
}

/// The ports and the payload of a UDP datagram are read back, whatever follows it.
pub proof fn law_udp_round_trip(
    src: u16,
    dst: u16,
    checksum: u16,
    data: Seq<u8>,
    after: Seq<u8>,
)
    requires
        8 + data.len() <= 0xFFFF,
    ensures
        net::udp_datagram(udp_bytes(src, dst, checksum, data) + after) == Some((src, dst, data)),
{
    let all = udp_bytes(src, dst, checksum, data) + after;
    messages::lemma_number_at(all, 0, src);
    messages::lemma_number_at(all, 2, dst);
    messages::lemma_number_at(all, 4, (8 + data.len()) as u16);
    assert(all.subrange(8, 8 + data.len() as int) =~= data);
}

/// What is in the header of an IPv4 packet beside the addresses, the protocol and
/// the time to live.
pub struct IpRest {
    pub version: u8,
    pub service: u8,
    pub identification: u16,
    pub fragment: u16,
    pub checksum: u16,
    pub options: Seq<u8>,
}

impl IpRest {
    /// The version takes four bits, and the options are words of four bytes, at most
    /// ten.
    pub open spec fn fits(self) -> bool {
        self.version < 16 && self.options.len() % 4 == 0 && self.options.len() <= 40
    }
}

/// An IPv4 packet whose total length is given.
pub open spec fn ip_bytes_of_length(
    rest: IpRest,
    total: u16,
    ttl: u8,
    protocol: u8,
    src: Seq<u8>,
    dst: Seq<u8>,
    payload: Seq<u8>,
) -> Seq<u8> {
    seq![(16 * rest.version + 5 + rest.options.len() / 4) as u8, rest.service]
        + messages::be_bytes(total) + messages::be_bytes(rest.identification) + messages::be_bytes(
        rest.fragment,
    ) + seq![ttl, protocol] + messages::be_bytes(rest.checksum) + src + dst + rest.options
        + payload
}

/// An IPv4 packet.
pub open spec fn ip_bytes(
    rest: IpRest,
    ttl: u8,
    protocol: u8,
    src: Seq<u8>,
    dst: Seq<u8>,
    payload: Seq<u8>,
) -> Seq<u8> {
    ip_bytes_of_length(
        rest,
        (20 + rest.options.len() + payload.len()) as u16,
        ttl,
        protocol,
        src,
        dst,
        payload,
    )
}

/// The addresses, the protocol, the time to live and the payload of an IPv4 packet
/// are read back, whatever else is in its header and whatever follows it.
pub proof fn law_ip_round_trip(
    rest: IpRest,
    ttl: u8,
    protocol: u8,
    src: Seq<u8>,
    dst: Seq<u8>,
    payload: Seq<u8>,
    after: Seq<u8>,
)
    requires
        rest.fits(),
        src.len() == 4,
        dst.len() == 4,
        20 + rest.options.len() + payload.len() <= 0xFFFF,
    ensures
        net::ip_packet(ip_bytes(rest, ttl, protocol, src, dst, payload) + after) == Some(
            (net::IpModel { src, dst, protocol, ttl }, payload),
        ),
{
    let total = (20 + rest.options.len() + payload.len()) as u16;
    lemma_ip_fields(rest, total, ttl, protocol, src, dst, payload, after);
    let data = ip_bytes(rest, ttl, protocol, src, dst, payload) + after;
    let start = (20 + rest.options.len()) as int;
    assert(data.subrange(start, start + payload.len()) =~= payload);
}

proof fn lemma_ip_fields(
    rest: IpRest,
    total: u16,
    ttl: u8,
    protocol: u8,
    src: Seq<u8>,
    dst: Seq<u8>,
    payload: Seq<u8>,
    after: Seq<u8>,
)
    requires
        rest.fits(),
        src.len() == 4,
        dst.len() == 4,
    ensures
        ({
            let data = ip_bytes_of_length(rest, total, ttl, protocol, src, dst, payload) + after;
            &&& data.len() == 20 + rest.options.len() + payload.len() + after.len()
            &&& net::ip_header_len(data) == 20 + rest.options.len()
            &&& data[2] * 256 + data[3] == total
            &&& data[8] == ttl
            &&& data[9] == protocol
            &&& data.subrange(12, 16) == src
            &&& data.subrange(16, 20) == dst
        }),
{
    let data = ip_bytes_of_length(rest, total, ttl, protocol, src, dst, payload) + after;
    messages::lemma_number_at(data, 2, total);
    let words = rest.options.len() / 4;
    assert(data[0] == (16 * rest.version + 5 + words) as u8);
    assert(data[0] % 16 == 5 + words);
    assert(data.subrange(12, 16) =~= src);
    assert(data.subrange(16, 20) =~= dst);
}

/// A packet that says it is shorter than its header has no payload, and one that
/// says it is longer than it is is rejected.
pub proof fn law_ip_total_length_bounds_the_payload(
    rest: IpRest,
    total: u16,
    ttl: u8,
    protocol: u8,
    src: Seq<u8>,
    dst: Seq<u8>,
    payload: Seq<u8>,
)
    requires
        rest.fits(),
        src.len() == 4,
        dst.len() == 4,
    ensures
        ({
            let header = 20 + rest.options.len();
            net::ip_packet(
                ip_bytes_of_length(rest, total, ttl, protocol, src, dst, payload),
            ) == if total <= header {
                Some((net::IpModel { src, dst, protocol, ttl }, Seq::empty()))
            } else if total <= header + payload.len() {
                Some((net::IpModel { src, dst, protocol, ttl }, payload.take(total - header)))
            } else {
                None
            }
        }),
{
    let data = ip_bytes_of_length(rest, total, ttl, protocol, src, dst, payload);
    lemma_ip_fields(rest, total, ttl, protocol, src, dst, payload, Seq::empty());
    assert(data + Seq::<u8>::empty() =~= data);
    let header = (20 + rest.options.len()) as int;
    if total <= header {
        assert(data.subrange(header, header) =~= Seq::empty());
    } else if total <= header + payload.len() {
        assert(data.subrange(header, total as int) =~= payload.take(total - header));
    }
}

/// Bytes that are no IPv4 header are rejected: fewer than 20, a header of fewer than
/// five words, or one that the packet does not hold.
pub proof fn law_broken_ip_header_is_rejected(data: Seq<u8>)
    requires
        data.len() < 20 || data[0] % 16 < 5 || data.len() < (data[0] % 16) * 4,
    ensures
        net::ip_packet(data) is None,
{
}

/// What is in the header of a TCP segment beside the ports: the numbers before the
/// length of the header, the four bits beside it, what is behind it, and the options.
pub struct TcpRest {
    pub numbers: Seq<u8>,
    pub reserved: u8,
    pub behind: Seq<u8>,
    pub options: Seq<u8>,
}

impl TcpRest {
    /// The numbers take eight bytes, what is behind the length seven, and the options
    /// are words of four bytes, at most ten.
    pub open spec fn fits(self) -> bool {
        &&& self.numbers.len() == 8
        &&& self.reserved < 16
        &&& self.behind.len() == 7
        &&& self.options.len() % 4 == 0
        &&& self.options.len() <= 40
    }
}

/// A TCP segment.
pub open spec fn tcp_bytes(rest: TcpRest, src: u16, dst: u16, data: Seq<u8>) -> Seq<u8> {
    messages::be_bytes(src) + messages::be_bytes(dst) + rest.numbers + seq![
        ((5 + rest.options.len() / 4) * 16 + rest.reserved) as u8,
    ] + rest.behind + rest.options + data
}

/// The ports and the payload of a TCP segment are read back, whatever else is in its
/// header.
pub proof fn law_tcp_round_trip(rest: TcpRest, src: u16, dst: u16, data: Seq<u8>)
    requires
        rest.fits(),
    ensures
        net::tcp_segment(tcp_bytes(rest, src, dst, data)) == Some((src, dst, data)),
{
    let all = tcp_bytes(rest, src, dst, data);
    messages::lemma_number_at(all, 0, src);
    messages::lemma_number_at(all, 2, dst);
    let words = rest.options.len() / 4;
    assert(all[12] == ((5 + words) * 16 + rest.reserved) as u8);
    assert(all[12] / 16 == 5 + words);
    assert(net::tcp_header_len(all) == 20 + rest.options.len());
    assert(all.skip(20 + rest.options.len() as int) =~= data);
}

/// Bytes that are no TCP header are rejected: fewer than 20, a header of fewer than
/// five words, or one that the segment does not hold.
pub proof fn law_broken_tcp_header_is_rejected(data: Seq<u8>)
    requires
        data.len() < 20 || data[12] < 0x50 || data.len() < (data[12] / 16) * 4,
    ensures
        net::tcp_segment(data) is None,
{
}

/// A UDP datagram that says it is shorter than its header, or longer than it is, is
/// rejected.
pub proof fn law_broken_udp_header_is_rejected(data: Seq<u8>)
    requires
        data.len() < 8 || data[4] * 256 + data[5] < 8 || data[4] * 256 + data[5] > data.len(),
    ensures
        net::udp_datagram(data) is None,
{
}

/// The text of an IPv4 address is its four numbers in decimal, with dots between
/// them.
pub proof fn law_dotted_form(a: u8, b: u8, c: u8, d: u8)
    ensures
        address::dotted(seq![a, b, c, d]) == text::decimal(a as nat) + "."@ + text::decimal(
            b as nat,
        ) + "."@ + text::decimal(c as nat) + "."@ + text::decimal(d as nat),
{
    let parts = address::decimal_parts(seq![a, b, c, d]);
    let w = text::decimal(a as nat);
    let x = text::decimal(b as nat);
    let y = text::decimal(c as nat);
    let z = text::decimal(d as nat);
    assert(parts =~= seq![w].push(x).push(y).push(z));
    numbers::law_separator_stands_between_parts(seq![w].push(x).push(y), z, "."@);
    numbers::law_separator_stands_between_parts(seq![w].push(x), y, "."@);
    numbers::law_separator_stands_between_parts(seq![w], x, "."@);
    numbers::law_separator_stands_between_parts(seq![w], w, "."@);
}

/// The text of an IPv6 address is its pairs of bytes in hexadecimal, with colons
/// between them.
pub proof fn law_grouped_form(groups: Seq<u16>)
    ensures
        address::grouped(pair_bytes(groups)) == text::join(
            groups.map_values(|group: u16| text::hex(group as nat)),
            ":"@,
        ),
{
    lemma_pair_bytes(groups);
    let parts = groups.map_values(|group: u16| text::hex(group as nat));
    assert(address::hex_parts(pair_bytes(groups)) =~= parts);
}

/// The bytes of some numbers of two bytes each.
pub open spec fn pair_bytes(groups: Seq<u16>) -> Seq<u8>
    decreases groups.len(),
{
    if groups.len() == 0 {
        Seq::empty()
    } else {
        pair_bytes(groups.drop_last()) + messages::be_bytes(groups.last())
    }
}

proof fn lemma_pair_bytes(groups: Seq<u16>)
    ensures
        pair_bytes(groups).len() == 2 * groups.len(),
        forall|i: int|
            0 <= i < groups.len() ==> wire::be16(pair_bytes(groups), 2 * i)
                == #[trigger] groups[i],
    decreases groups.len(),
{
    if groups.len() > 0 {
        let front = groups.drop_last();
        let all = pair_bytes(groups);
        lemma_pair_bytes(front);
        assert forall|i: int| 0 <= i < groups.len() implies wire::be16(all, 2 * i)
            == #[trigger] groups[i] by {
            if i < front.len() {
                assert(front[i] == groups[i]);
                assert(all[2 * i] == pair_bytes(front)[2 * i]);
                assert(all[2 * i + 1] == pair_bytes(front)[2 * i + 1]);
            } else {
                messages::lemma_number_at(all, 2 * i, groups[i]);
            }
        }
    }
}

/// Whether every character is a digit.
pub open spec fn is_digits(s: Seq<char>) -> bool {
    forall|i: int| 0 <= i < s.len() ==> '0' <= #[trigger] s[i] <= '9'
}

proof fn lemma_decimal_digits(n: nat)
    ensures
        is_digits(text::decimal(n)),
        text::decimal(n).len() > 0,
    decreases n,
{
    if n >= 10 {
        lemma_decimal_digits(n / 10);
    }
}

/// Different numbers have different decimal numerals.
pub proof fn law_decimal_numerals_are_distinct(a: nat, b: nat)
    requires
        text::decimal(a) == text::decimal(b),
    ensures
        a == b,
    decreases a,
{
    let x = text::decimal(a);
    let y = text::decimal(b);
    if a >= 10 {
        lemma_decimal_digits(a / 10);
    }
    if b >= 10 {
        lemma_decimal_digits(b / 10);
    }
    assert(x.last() == text::digit(a % 10));
    assert(y.last() == text::digit(b % 10));
    assert(a % 10 == b % 10);
    if a >= 10 {
        assert(b >= 10);
        assert(x.drop_last() =~= text::decimal(a / 10));
        assert(y.drop_last() =~= text::decimal(b / 10));
        law_decimal_numerals_are_distinct(a / 10, b / 10);
    }
}

/// Different addresses have different dotted decimal forms, so that messages
/// matched by the text of their addresses are matched by the addresses.
pub proof fn law_dotted_forms_are_distinct(a: Seq<u8>, b: Seq<u8>)
    requires
        a.len() == 4,
        b.len() == 4,
        address::dotted(a) == address::dotted(b),
    ensures
        a == b,
{
    let x = address::decimal_parts(a);
    let y = address::decimal_parts(b);
    assert forall|i: int| 0 <= i < 4 implies !(#[trigger] x[i]).contains('.') by {
        lemma_decimal_digits(a[i] as nat);
    }
    assert forall|i: int| 0 <= i < 4 implies !(#[trigger] y[i]).contains('.') by {
        lemma_decimal_digits(b[i] as nat);
    }
    numbers::lemma_split_join(x);
    numbers::lemma_split_join(y);
    assert forall|i: int| 0 <= i < 4 implies a[i] == b[i] by {
        assert(x[i] == y[i]);
        law_decimal_numerals_are_distinct(a[i] as nat, b[i] as nat);
    }
    assert(a =~= b);
}

} // verus!
