//! DNS messages (RFC 1035) with the EDNS0 pseudo-record (RFC 6891).

use vstd::prelude::*;
use vstd::utf8;

use crate::address;
use crate::seqs;
use crate::text;
use crate::wire;

verus! {

/// The type of a query or of a resource record.
#[derive(Debug, Clone, Copy, PartialEq, Eq, Structural)]
pub enum QType {
    A,
    AAAA,
    NS,
    CNAME,
    MX,
    TXT,
    PTR,
    SOA,
    SRV,
    /// EDNS0 pseudo-record.
    OPT,
    /// Type 10, seen in DNS tunneling.
    NULL,
    Other(u16),
}

impl QType {
    /// The type that a type code stands for.
    pub open spec fn with_code(v: u16) -> QType {
        match v {
            1 => QType::A,
            2 => QType::NS,
            5 => QType::CNAME,
            6 => QType::SOA,
            10 => QType::NULL,
            12 => QType::PTR,
            15 => QType::MX,
            16 => QType::TXT,
            28 => QType::AAAA,
            33 => QType::SRV,
            41 => QType::OPT,
            n => QType::Other(n),
        }
    }

    /// The mnemonic of a type.
    pub open spec fn mnemonic(self) -> Seq<char> {
        match self {
            QType::A => "A"@,
            QType::AAAA => "AAAA"@,
            QType::NS => "NS"@,
            QType::CNAME => "CNAME"@,
            QType::MX => "MX"@,
            QType::TXT => "TXT"@,
            QType::PTR => "PTR"@,
            QType::SOA => "SOA"@,
            QType::SRV => "SRV"@,
            QType::OPT => "OPT"@,
            QType::NULL => "NULL"@,
            QType::Other(_) => "OTHER"@,
        }
    }

    /// The type that a type code stands for.
    pub fn from_u16(v: u16) -> (res: Self)
        ensures
            res == QType::with_code(v),
    {
        match v {
            1 => QType::A,
            2 => QType::NS,
            5 => QType::CNAME,
            6 => QType::SOA,
            10 => QType::NULL,
            12 => QType::PTR,
            15 => QType::MX,
            16 => QType::TXT,
            28 => QType::AAAA,
            33 => QType::SRV,
            41 => QType::OPT,
            n => QType::Other(n),
        }
    }

    /// The mnemonic of the type.
    pub fn as_str(&self) -> (res: &'static str)
        ensures
            res@ == self.mnemonic(),
    {
        match self {
            QType::A => "A",
            QType::AAAA => "AAAA",
            QType::NS => "NS",
            QType::CNAME => "CNAME",
            QType::MX => "MX",
            QType::TXT => "TXT",
            QType::PTR => "PTR",
            QType::SOA => "SOA",
            QType::SRV => "SRV",
            QType::OPT => "OPT",
            QType::NULL => "NULL",
            QType::Other(_) => "OTHER",
        }
    }
}

/// The response code of a message.
#[derive(Debug, Clone, Copy, PartialEq, Eq, Structural)]
pub enum RCode {
    NoError,
    FormErr,
    ServFail,
    NXDomain,
    NotImp,
    Refused,
    Other(u8),
}

impl RCode {
    /// The response code that a number stands for.
    pub open spec fn with_code(v: u8) -> RCode {
        match v {
            0 => RCode::NoError,
            1 => RCode::FormErr,
            2 => RCode::ServFail,
            3 => RCode::NXDomain,
            4 => RCode::NotImp,
            5 => RCode::Refused,
            n => RCode::Other(n),
        }
    }

    /// The mnemonic of a response code.
    pub open spec fn mnemonic(self) -> Seq<char> {
        match self {
            RCode::NoError => "NOERROR"@,
            RCode::FormErr => "FORMERR"@,
            RCode::ServFail => "SERVFAIL"@,
            RCode::NXDomain => "NXDOMAIN"@,
            RCode::NotImp => "NOTIMP"@,
            RCode::Refused => "REFUSED"@,
            RCode::Other(_) => "OTHER"@,
        }
    }

    /// The response code that a number stands for.
    pub fn from_u8(v: u8) -> (res: Self)
        ensures
            res == RCode::with_code(v),
    {
        match v {
            0 => RCode::NoError,
            1 => RCode::FormErr,
            2 => RCode::ServFail,
            3 => RCode::NXDomain,
            4 => RCode::NotImp,
            5 => RCode::Refused,
            n => RCode::Other(n),
        }
    }

    /// The mnemonic of the response code.
    pub fn as_str(&self) -> (res: &'static str)
        ensures
            res@ == self.mnemonic(),
    {
        match self {
            RCode::NoError => "NOERROR",
            RCode::FormErr => "FORMERR",
            RCode::ServFail => "SERVFAIL",
            RCode::NXDomain => "NXDOMAIN",
            RCode::NotImp => "NOTIMP",
            RCode::Refused => "REFUSED",
            RCode::Other(_) => "OTHER",
        }
    }
}

/// An entry of the question section.
#[derive(Debug, Clone)]
pub struct DnsQuestion {
    pub name: String,
    pub qtype: QType,
    pub qclass: u16,
}

/// What a [`DnsQuestion`] says.
pub struct QuestionModel {
    pub name: Seq<char>,
    pub qtype: QType,
    pub qclass: u16,
}

impl View for DnsQuestion {
    type V = QuestionModel;

    open spec fn view(&self) -> QuestionModel {
        QuestionModel { name: self.name@, qtype: self.qtype, qclass: self.qclass }
    }
}

/// A resource record of the answer, authority or additional section.
#[derive(Debug, Clone)]
pub struct DnsRecord {
    pub name: String,
    pub rtype: QType,
    pub rclass: u16,
    pub ttl: u32,
    pub rdata: Vec<u8>,
    /// For A and AAAA records: the address in text form.
    pub parsed_addr: Option<String>,
    /// For CNAME, NS and PTR records: the name that the record data holds.
    pub parsed_name: Option<String>,
}

/// What a [`DnsRecord`] says.
pub struct RecordModel {
    pub name: Seq<char>,
    pub rtype: QType,
    pub rclass: u16,
    pub ttl: u32,
    pub rdata: Seq<u8>,
    pub parsed_addr: Option<Seq<char>>,
    pub parsed_name: Option<Seq<char>>,
}

impl View for DnsRecord {
    type V = RecordModel;

    open spec fn view(&self) -> RecordModel {
        RecordModel {
            name: self.name@,
            rtype: self.rtype,
            rclass: self.rclass,
            ttl: self.ttl,
            rdata: self.rdata@,
            parsed_addr: seqs::view_of_option(self.parsed_addr),
            parsed_name: seqs::view_of_option(self.parsed_name),
        }
    }
}

/// What the EDNS0 OPT pseudo-record (RFC 6891) says.
#[derive(Debug, Clone, Copy, PartialEq, Eq, Structural)]
pub struct EdnsInfo {
    /// UDP payload size that the sender can take.
    pub udp_payload_size: u16,
    /// Upper eight bits of the extended response code.
    pub ext_rcode: u8,
    /// EDNS version.
    pub version: u8,
    /// DO bit (DNSSEC OK).
    pub dnssec_ok: bool,
}

/// A parsed DNS message.
#[derive(Debug, Clone)]
pub struct DnsPacket {
    /// Transaction ID.
    pub txid: u16,
    /// Whether the message is a response, not a query.
    pub is_response: bool,
    /// Opcode (0 = QUERY, 1 = IQUERY, 2 = STATUS).
    pub opcode: u8,
    /// Authoritative answer.
    pub aa: bool,
    /// TC bit: the message was cut short, the client must ask again over TCP.
    pub truncated: bool,
    /// Recursion desired.
    pub rd: bool,
    /// Recursion available.
    pub ra: bool,
    /// Response code.
    pub rcode: RCode,
    /// Question section.
    pub questions: Vec<DnsQuestion>,
    /// Answer section.
    pub answers: Vec<DnsRecord>,
    /// Authority section.
    pub authority: Vec<DnsRecord>,
    /// Additional section, without OPT records.
    pub additional: Vec<DnsRecord>,
    /// EDNS0 information, where the additional section holds an OPT record.
    pub edns: Option<EdnsInfo>,
}

/// What a [`DnsPacket`] says.
pub struct PacketModel {
    pub txid: u16,
    pub is_response: bool,
    pub opcode: u8,
    pub aa: bool,
    pub truncated: bool,
    pub rd: bool,
    pub ra: bool,
    pub rcode: RCode,
    pub questions: Seq<QuestionModel>,
    pub answers: Seq<RecordModel>,
    pub authority: Seq<RecordModel>,
    pub additional: Seq<RecordModel>,
    pub edns: Option<EdnsInfo>,
}

impl View for DnsPacket {
    type V = PacketModel;

    open spec fn view(&self) -> PacketModel {
        PacketModel {
            txid: self.txid,
            is_response: self.is_response,
            opcode: self.opcode,
            aa: self.aa,
            truncated: self.truncated,
            rd: self.rd,
            ra: self.ra,
            rcode: self.rcode,
            questions: seqs::views(self.questions@),
            answers: seqs::views(self.answers@),
            authority: seqs::views(self.authority@),
            additional: seqs::views(self.additional@),
            edns: self.edns,
        }
    }
}

/// Whether a name is long enough to be suspected of carrying data: more than 100
/// bytes in all, or more than 30 in one label.
pub open spec fn is_long_name(name: Seq<char>) -> bool {
    ||| text::byte_len(name) > 100
    ||| exists|i: int|
        0 <= i < text::split(name, '.').len() && text::byte_len(
            #[trigger] text::split(name, '.')[i],
        ) > 30
}

spec fn has_long_piece(pieces: Seq<Seq<char>>) -> bool {
    exists|i: int| 0 <= i < pieces.len() && text::byte_len(#[trigger] pieces[i]) > 30
}

proof fn lemma_long_piece_front(first: Seq<char>, rest: Seq<Seq<char>>)
    ensures
        has_long_piece(seq![first] + rest) == (text::byte_len(first) > 30 || has_long_piece(rest)),
{
    let all = seq![first] + rest;
    assert(all[0] == first);
    if has_long_piece(rest) {
        let i = choose|i: int|
            0 <= i < rest.len() && text::byte_len(#[trigger] rest[i]) > 30;
        assert(all[i + 1] == rest[i]);
    }
    if has_long_piece(all) {
        let i = choose|i: int| 0 <= i < all.len() && text::byte_len(#[trigger] all[i]) > 30;
        if i > 0 {
            assert(all[i] == rest[i - 1]);
        }
    }
}

fn is_long(name: &str) -> (res: bool)
    ensures
        res == is_long_name(name@),
{
    let ghost s = name@;
    let size: usize = name.as_bytes().len();
    if size > 100 {
        return true;
    }
    let chars: Vec<char> = text::chars_of(name);
    let mut start: usize = 0;
    let mut run: usize = 0;
    let mut i: usize = 0;
    assert(s.skip(0) =~= s);
    while i < chars.len()
        invariant
            chars@ == s,
            s == name@,
            size == text::byte_len(s),
            size <= 100,
            start <= i <= chars.len(),
            forall|j: int| start <= j < i ==> s[j] != '.',
            run == text::byte_len(s.subrange(start as int, i as int)),
            has_long_piece(text::split(s, '.')) == has_long_piece(
                text::split(s.skip(start as int), '.'),
            ),
        decreases chars.len() - i,
    {
        let c: char = chars[i];
        if c == '.' {
            proof {
                let rest = s.skip(start as int);
                text::lemma_split_at_first(rest, i - start, '.');
                assert(rest.take(i - start) =~= s.subrange(start as int, i as int));
                assert(rest.skip(i - start + 1) =~= s.skip(i + 1));
                lemma_long_piece_front(
                    rest.take(i - start),
                    text::split(s.skip(i + 1), '.'),
                );
                assert(s.subrange(i + 1, i + 1) =~= Seq::empty());
            }
            if run > 30 {
                return true;
            }
            start = i + 1;
            run = 0;
        } else {
            let width: usize = text::utf8_width(c);
            proof {
                let part = s.subrange(start as int, i as int);
                assert(part.push(c) =~= s.subrange(start as int, i + 1));
                text::lemma_byte_len_push(part, c);
                text::lemma_byte_len_part(s, start as int, i + 1);
            }
            run = run + width;
        }
        i = i + 1;
    }
    proof {
        let rest = s.skip(start as int);
        assert(rest =~= s.subrange(start as int, i as int));
        assert(!rest.contains('.'));
        assert(seq![rest] + Seq::<Seq<char>>::empty() =~= seq![rest]);
        lemma_long_piece_front(rest, Seq::empty());
    }
    run > 30
}

impl PacketModel {
    /// Whether the message asks for a name that is suspiciously long.
    pub open spec fn has_long_name(self) -> bool {
        exists|i: int|
            0 <= i < self.questions.len() && is_long_name(#[trigger] self.questions[i].name)
    }
}

impl DnsPacket {
    /// The name of the first question; most messages have exactly one.
    pub fn first_question_name(&self) -> (res: Option<&str>)
        ensures
            match res {
                Some(name) => self@.questions.len() > 0 && name@ == self@.questions[0].name,
                None => self@.questions.len() == 0,
            },
    {
        if self.questions.len() > 0 {
            Some(self.questions[0].name.as_str())
        } else {
            None
        }
    }

    /// The type of the first question.
    pub fn first_qtype(&self) -> (res: Option<&QType>)
        ensures
            match res {
                Some(qtype) => self@.questions.len() > 0 && *qtype == self@.questions[0].qtype,
                None => self@.questions.len() == 0,
            },
    {
        if self.questions.len() > 0 {
            Some(&self.questions[0].qtype)
        } else {
            None
        }
    }

    /// Whether the length of a name in the question section suggests DNS tunneling.
    pub fn has_long_labels(&self) -> (res: bool)
        ensures
            res == self@.has_long_name(),
    {
        let mut i: usize = 0;
        while i < self.questions.len()
            invariant
                i <= self.questions.len(),
                forall|j: int|
                    0 <= j < i ==> !is_long_name(#[trigger] self@.questions[j].name),
            decreases self.questions.len() - i,
        {
            if is_long(self.questions[i].name.as_str()) {
                assert(is_long_name(self@.questions[i as int].name));
                return true;
            }
            i = i + 1;
        }
        false
    }
}

/// How many compression pointers a name may follow.
pub const MAX_PTR_DEPTH: usize = 10;

/// How long a decoded name may be, where each label counts its bytes and one more.
pub const MAX_NAME_LEN: usize = 255;

/// The target of the compression pointer whose two bytes start at `pos`.
pub open spec fn pointer_target(data: Seq<u8>, pos: int) -> int {
    (data[pos] - 0xC0) * 0x100 + data[pos + 1]
}

/// The labels of the name whose encoding goes on at `pos`, and the offset
/// behind that encoding.
///
/// A zero byte ends the name; a byte below 64 is the length of a label, which
/// must be UTF-8; two bytes from 192 on are a pointer to the rest of the name.
/// `start` is where the run of labels that holds `pos` began: a pointer may lead
/// neither there nor to itself. At most `hops` pointers are followed.
pub open spec fn labels_at(data: Seq<u8>, start: int, pos: int, hops: nat) -> Option<
    (Seq<Seq<char>>, int),
>
    decreases hops, data.len() - pos,
{
    if pos < 0 || pos >= data.len() {
        None
    } else if data[pos] == 0 {
        Some((Seq::empty(), pos + 1))
    } else if data[pos] < 0x40 {
        let next = pos + 1 + data[pos];
        if next > data.len() || !utf8::valid_utf8(data.subrange(pos + 1, next)) {
            None
        } else {
            match labels_at(data, start, next, hops) {
                Some((rest, end)) => Some(
                    (seq![utf8::decode_utf8(data.subrange(pos + 1, next))] + rest, end),
                ),
                None => None,
            }
        }
    } else if data[pos] >= 0xC0 && pos + 1 < data.len() {
        let target = pointer_target(data, pos);
        if target >= data.len() || target == start || target == pos || hops == 0 {
            None
        } else {
            match labels_at(data, target, target, (hops - 1) as nat) {
                Some((rest, _)) => Some((rest, pos + 2)),
                None => None,
            }
        }
    } else {
        None
    }
}

/// The length of a name: of each label its bytes and one more.
pub open spec fn name_len(labels: Seq<Seq<char>>) -> nat
    decreases labels.len(),
{
    if labels.len() == 0 {
        0
    } else {
        text::byte_len(labels[0]) + 1 + name_len(labels.drop_first())
    }
}

/// The name encoded at `offset`, its labels joined by dots, and the offset behind
/// its encoding, where `depth` pointers have been followed before.
pub open spec fn name_from(data: Seq<u8>, offset: int, depth: nat) -> Option<(Seq<char>, int)> {
    if depth > MAX_PTR_DEPTH {
        None
    } else {
        match labels_at(data, offset, offset, (MAX_PTR_DEPTH - depth) as nat) {
            Some((labels, end)) if name_len(labels) <= MAX_NAME_LEN => Some(
                (text::join(labels, "."@), end),
            ),
            _ => None,
        }
    }
}

/// The name encoded at `offset`, its labels joined by dots, and the offset
/// behind its encoding.
pub open spec fn name_at(data: Seq<u8>, offset: int) -> Option<(Seq<char>, int)> {
    name_from(data, offset, 0)
}

proof fn lemma_name_len_front(label: Seq<char>, rest: Seq<Seq<char>>)
    ensures
        name_len(seq![label] + rest) == text::byte_len(label) + 1 + name_len(rest),
{
    assert((seq![label] + rest).drop_first() =~= rest);
}

/// Decodes the labels of a name whose run of labels starts at `offset`, with
/// `depth` pointers followed before and `room` left of the longest name.
fn decode_labels(data: &[u8], offset: usize, depth: usize, room: usize) -> (res: Option<
    (Vec<String>, usize),
>)
    requires
        depth <= MAX_PTR_DEPTH,
    ensures
        match labels_at(data@, offset as int, offset as int, (MAX_PTR_DEPTH - depth) as nat) {
            Some((labels, end)) => if name_len(labels) <= room {
                res matches Some((l, e)) && seqs::views(l@) == labels && e == end
            } else {
                res is None
            },
            None => res is None,
        },
    decreases MAX_PTR_DEPTH - depth,
{
    let ghost hops = (MAX_PTR_DEPTH - depth) as nat;
    let ghost whole = labels_at(data@, offset as int, offset as int, hops);
    let mut labels: Vec<String> = Vec::new();
    let mut pos: usize = offset;
    let mut left: usize = room;
    loop
        invariant
            depth <= MAX_PTR_DEPTH,
            hops == MAX_PTR_DEPTH - depth,
            whole == labels_at(data@, offset as int, offset as int, hops),
            left <= room,
            match labels_at(data@, offset as int, pos as int, hops) {
                Some((rest, end)) => {
                    &&& whole == Some((seqs::views(labels@) + rest, end))
                    &&& name_len(seqs::views(labels@) + rest) == room - left + name_len(rest)
                },
                None => whole is None,
            },
        decreases data.len() - pos,
    {
        if pos >= data.len() {
            return None;
        }
        let len_byte: u8 = data[pos];
        if len_byte == 0 {
            assert(seqs::views(labels@) + Seq::<Seq<char>>::empty() =~= seqs::views(labels@));
            return Some((labels, pos + 1));
        }
        if len_byte < 0x40 {
            let label_len: usize = len_byte as usize;
            if label_len > data.len() - pos - 1 {
                return None;
            }
            let label: &str = match text::utf8_text(
                vstd::slice::slice_subrange(data, pos + 1, pos + 1 + label_len),
            ) {
                Some(label) => label,
                None => {
                    return None;
                },
            };
            let ghost encoded = data@.subrange(pos + 1, pos + 1 + label_len);
            let ghost rest = labels_at(data@, offset as int, pos + 1 + label_len, hops);
            proof {
                utf8::decode_utf8_encode_utf8(encoded);
                if let Some((tail, _)) = rest {
                    lemma_name_len_front(label@, tail);
                }
            }
            if label_len + 1 > left {
                return None;
            }
            let ghost before = labels@;
            labels.push(label.to_string());
            proof {
                seqs::lemma_views_push(before, labels@.last());
                if let Some((tail, _)) = rest {
                    assert(seqs::views(labels@) + tail =~= seqs::views(before) + (seq![label@]
                        + tail));
                }
            }
            left = left - (label_len + 1);
            pos = pos + 1 + label_len;
        } else if len_byte >= 0xC0 {
            if data.len() - pos < 2 {
                return None;
            }
            let target: usize = (len_byte as usize - 0xC0) * 0x100 + data[pos + 1] as usize;
            if target >= data.len() || target == offset || target == pos || depth == MAX_PTR_DEPTH {
                return None;
            }
            match decode_labels(data, target, depth + 1, left) {
                Some((suffix, _)) => {
                    let mut suffix: Vec<String> = suffix;
                    let ghost before = labels@;
                    let ghost after = suffix@;
                    labels.append(&mut suffix);
                    assert(seqs::views(labels@) =~= seqs::views(before) + seqs::views(after));
                    return Some((labels, pos + 2));
                },
                None => {
                    return None;
                },
            }
        } else {
            return None;
        }
    }
}

/// Decodes the name at `offset` of a message, with the offset behind it.
///
/// `data` is the whole message, which compression pointers refer to.
pub fn decode_name(data: &[u8], offset: usize) -> (res: Option<(String, usize)>)
    ensures
        match name_at(data@, offset as int) {
            Some((name, end)) => res matches Some((n, e)) && n@ == name && e == end,
            None => res is None,
        },
{
    decode_name_inner(data, offset, 0)
}

/// Decodes the name at `offset` of a message, with the offset behind it, where
/// `depth` pointers have been followed before.
pub fn decode_name_inner(data: &[u8], offset: usize, depth: usize) -> (res: Option<
    (String, usize),
>)
    ensures
        match name_from(data@, offset as int, depth as nat) {
            Some((name, end)) => res matches Some((n, e)) && n@ == name && e == end,
            None => res is None,
        },
{
    if depth > MAX_PTR_DEPTH {
        return None;
    }
    match decode_labels(data, offset, depth, MAX_NAME_LEN) {
        Some((labels, end)) => Some((text::join_texts(&labels, "."), end)),
        None => None,
    }
}

/// The question encoded at `offset`, and the offset behind it.
pub open spec fn question_at(data: Seq<u8>, offset: int) -> Option<(QuestionModel, int)> {
    match name_at(data, offset) {
        Some((name, pos)) if pos + 4 <= data.len() => Some(
            (
                QuestionModel {
                    name,
                    qtype: QType::with_code(wire::be16(data, pos)),
                    qclass: wire::be16(data, pos + 2),
                },
                pos + 4,
            ),
        ),
        _ => None,
    }
}

/// The address that the data of a record holds, in text form.
pub open spec fn address_of(rtype: QType, rdata: Seq<u8>) -> Option<Seq<char>> {
    if rtype is A && rdata.len() == 4 {
        Some(address::dotted(rdata))
    } else if rtype is AAAA && rdata.len() == 16 {
        Some(address::grouped(rdata))
    } else {
        None
    }
}

/// The name that the data of a record, which starts at `start`, holds.
pub open spec fn target_of(data: Seq<u8>, rtype: QType, start: int) -> Option<Seq<char>> {
    if rtype is CNAME || rtype is NS || rtype is PTR {
        match name_at(data, start) {
            Some((name, _)) => Some(name),
            None => None,
        }
    } else {
        None
    }
}

/// The resource record encoded at `offset`, and the offset behind it.
pub open spec fn record_at(data: Seq<u8>, offset: int) -> Option<(RecordModel, int)> {
    match name_at(data, offset) {
        Some((name, pos)) if pos + 10 <= data.len() && pos + 10 + wire::be16(data, pos + 8)
            <= data.len() => {
            let rtype = QType::with_code(wire::be16(data, pos));
            let start = pos + 10;
            let end = start + wire::be16(data, pos + 8);
            let rdata = data.subrange(start, end);
            Some(
                (
                    RecordModel {
                        name,
                        rtype,
                        rclass: wire::be16(data, pos + 2),
                        ttl: wire::be32(data, pos + 4),
                        rdata,
                        parsed_addr: address_of(rtype, rdata),
                        parsed_name: target_of(data, rtype, start),
                    },
                    end,
                ),
            )
        },
        _ => None,
    }
}

/// What an OPT record says: its class is a payload size, its time to live holds
/// the extended response code, the version and the flags.
pub open spec fn edns_of(record: RecordModel) -> EdnsInfo {
    EdnsInfo {
        udp_payload_size: record.rclass,
        ext_rcode: (record.ttl / 0x100_0000) as u8,
        version: (record.ttl / 0x1_0000 % 0x100) as u8,
        dnssec_ok: record.ttl / 0x8000 % 2 == 1,
    }
}

pub proof fn lemma_name_end(data: Seq<u8>, start: int, pos: int, hops: nat)
    ensures
        labels_at(data, start, pos, hops) matches Some((_, end)) ==> pos < end <= data.len(),
    decreases hops, data.len() - pos,
{
    if 0 <= pos < data.len() && 0 < data[pos] < 0x40 {
        let next = pos + 1 + data[pos];
        if next <= data.len() {
            lemma_name_end(data, start, next, hops);
        }
    }
}

/// Parses the question at `offset` of a message, with the offset behind it.
pub fn parse_question(data: &[u8], offset: usize) -> (res: Option<(DnsQuestion, usize)>)
    ensures
        match question_at(data@, offset as int) {
            Some((question, end)) => res matches Some((q, e)) && q@ == question && e == end,
            None => res is None,
        },
{
    let (name, pos): (String, usize) = match decode_name(data, offset) {
        Some(decoded) => decoded,
        None => {
            return None;
        },
    };
    proof {
        lemma_name_end(data@, offset as int, offset as int, MAX_PTR_DEPTH as nat);
    }
    if data.len() - pos < 4 {
        return None;
    }
    let qtype: u16 = wire::read_be16(data, pos);
    let qclass: u16 = wire::read_be16(data, pos + 2);
    Some((DnsQuestion { name, qtype: QType::from_u16(qtype), qclass }, pos + 4))
}

/// Parses the resource record at `offset` of a message, with the offset behind it.
pub fn parse_record(data: &[u8], offset: usize) -> (res: Option<(DnsRecord, usize)>)
    ensures
        match record_at(data@, offset as int) {
            Some((record, end)) => res matches Some((r, e)) && r@ == record && e == end,
            None => res is None,
        },
{
    let (name, pos): (String, usize) = match decode_name(data, offset) {
        Some(decoded) => decoded,
        None => {
            return None;
        },
    };
    proof {
        lemma_name_end(data@, offset as int, offset as int, MAX_PTR_DEPTH as nat);
    }
    if data.len() - pos < 10 {
        return None;
    }
    let rtype: QType = QType::from_u16(wire::read_be16(data, pos));
    let rclass: u16 = wire::read_be16(data, pos + 2);
    let ttl: u32 = wire::read_be32(data, pos + 4);
    let rdlen: usize = wire::read_be16(data, pos + 8) as usize;
    let start: usize = pos + 10;
    if data.len() - start < rdlen {
        return None;
    }
    let rdata: &[u8] = vstd::slice::slice_subrange(data, start, start + rdlen);
    let parsed_addr: Option<String> = match rtype {
        QType::A if rdlen == 4 => Some(address::dotted_text(rdata)),
        QType::AAAA if rdlen == 16 => Some(address::grouped_text(rdata)),
        _ => None,
    };
    let parsed_name: Option<String> = match rtype {
        QType::CNAME | QType::NS | QType::PTR => match decode_name(data, start) {
            Some((target, _)) => Some(target),
            None => None,
        },
        _ => None,
    };
    let record = DnsRecord {
        name,
        rtype,
        rclass,
        ttl,
        rdata: vstd::slice::slice_to_vec(rdata),
        parsed_addr,
        parsed_name,
    };
    Some((record, start + rdlen))
}

fn parse_edns(record: &DnsRecord) -> (res: Option<EdnsInfo>)
    ensures
        res == (if record@.rtype is OPT {
            Some(edns_of(record@))
        } else {
            None
        }),
{
    if record.rtype != QType::OPT {
        return None;
    }
    let ttl: u32 = record.ttl;
    assert((ttl >> 24) == ttl / 0x100_0000 && (ttl >> 24) < 0x100) by (bit_vector);
    assert(((ttl >> 16) & 0xFF) == ttl / 0x1_0000 % 0x100) by (bit_vector);
    assert(((ttl & 0x8000) != 0) == (ttl / 0x8000 % 2 == 1)) by (bit_vector);
    Some(
        EdnsInfo {
            udp_payload_size: record.rclass,
            ext_rcode: (ttl >> 24) as u8,
            version: ((ttl >> 16) & 0xFF) as u8,
            dnssec_ok: (ttl & 0x8000) != 0,
        },
    )
}

/// The `count` questions encoded from `pos` on, and the offset behind them.
pub open spec fn questions_at(data: Seq<u8>, pos: int, count: nat) -> Option<
    (Seq<QuestionModel>, int),
>
    decreases count,
{
    if count == 0 {
        Some((Seq::empty(), pos))
    } else {
        match questions_at(data, pos, (count - 1) as nat) {
            Some((questions, next)) => match question_at(data, next) {
                Some((question, end)) => Some((questions.push(question), end)),
                None => None,
            },
            None => None,
        }
    }
}

/// The `count` records encoded from `pos` on, and the offset behind them.
pub open spec fn records_at(data: Seq<u8>, pos: int, count: nat) -> Option<
    (Seq<RecordModel>, int),
>
    decreases count,
{
    if count == 0 {
        Some((Seq::empty(), pos))
    } else {
        match records_at(data, pos, (count - 1) as nat) {
            Some((records, next)) => match record_at(data, next) {
                Some((record, end)) => Some((records.push(record), end)),
                None => None,
            },
            None => None,
        }
    }
}

pub proof fn lemma_questions_fail(data: Seq<u8>, pos: int, some: nat, count: nat)
    requires
        some <= count,
        questions_at(data, pos, some) is None,
    ensures
        questions_at(data, pos, count) is None,
    decreases count,
{
    if some < count {
        lemma_questions_fail(data, pos, some, (count - 1) as nat);
    }
}

pub proof fn lemma_records_fail(data: Seq<u8>, pos: int, some: nat, count: nat)
    requires
        some <= count,
        records_at(data, pos, some) is None,
    ensures
        records_at(data, pos, count) is None,
    decreases count,
{
    if some < count {
        lemma_records_fail(data, pos, some, (count - 1) as nat);
    }
}

fn parse_questions(data: &[u8], pos: usize, count: usize) -> (res: Option<
    (Vec<DnsQuestion>, usize),
>)
    ensures
        match questions_at(data@, pos as int, count as nat) {
            Some((questions, end)) => {
                res matches Some((q, e)) && seqs::views(q@) == questions && e == end
            },
            None => res is None,
        },
{
    let mut questions: Vec<DnsQuestion> = Vec::new();
    let mut next: usize = pos;
    let mut i: usize = 0;
    assert(seqs::views(questions@) =~= Seq::empty());
    while i < count
        invariant
            i <= count,
            questions_at(data@, pos as int, i as nat) == Some(
                (seqs::views(questions@), next as int),
            ),
        decreases count - i,
    {
        match parse_question(data, next) {
            Some((question, end)) => {
                proof {
                    seqs::lemma_views_push(questions@, question);
                }
                questions.push(question);
                next = end;
            },
            None => {
                proof {
                    lemma_questions_fail(data@, pos as int, (i + 1) as nat, count as nat);
                }
                return None;
            },
        }
        i = i + 1;
    }
    Some((questions, next))
}

fn parse_records(data: &[u8], pos: usize, count: usize) -> (res: Option<(Vec<DnsRecord>, usize)>)
    ensures
        match records_at(data@, pos as int, count as nat) {
            Some((records, end)) => {
                res matches Some((r, e)) && seqs::views(r@) == records && e == end
            },
            None => res is None,
        },
{
    let mut records: Vec<DnsRecord> = Vec::new();
    let mut next: usize = pos;
    let mut i: usize = 0;
    assert(seqs::views(records@) =~= Seq::empty());
    while i < count
        invariant
            i <= count,
            records_at(data@, pos as int, i as nat) == Some((seqs::views(records@), next as int)),
        decreases count - i,
    {
        match parse_record(data, next) {
            Some((record, end)) => {
                proof {
                    seqs::lemma_views_push(records@, record);
                }
                records.push(record);
                next = end;
            },
            None => {
                proof {
                    lemma_records_fail(data@, pos as int, (i + 1) as nat, count as nat);
                }
                return None;
            },
        }
        i = i + 1;
    }
    Some((records, next))
}

/// The records that are no OPT records.
pub open spec fn without_opt(records: Seq<RecordModel>) -> Seq<RecordModel> {
    records.filter(|record: RecordModel| !(record.rtype is OPT))
}

/// What the last OPT record among some records says.
pub open spec fn last_edns(records: Seq<RecordModel>) -> Option<EdnsInfo>
    decreases records.len(),
{
    if records.len() == 0 {
        None
    } else if records.last().rtype is OPT {
        Some(edns_of(records.last()))
    } else {
        last_edns(records.drop_last())
    }
}

fn parse_additional(data: &[u8], pos: usize, count: usize) -> (res: Option<
    (Vec<DnsRecord>, Option<EdnsInfo>),
>)
    ensures
        match records_at(data@, pos as int, count as nat) {
            Some((records, _)) => {
                &&& res matches Some((additional, edns))
                &&& seqs::views(additional@) == without_opt(records)
                &&& edns == last_edns(records)
            },
            None => res is None,
        },
{
    let mut additional: Vec<DnsRecord> = Vec::new();
    let mut edns: Option<EdnsInfo> = None;
    let mut next: usize = pos;
    let mut i: usize = 0;
    let ghost mut records: Seq<RecordModel> = Seq::empty();
    let ghost keep = |record: RecordModel| !(record.rtype is OPT);
    assert(seqs::views(additional@) =~= without_opt(records)) by {
        reveal(Seq::filter);
    }
    while i < count
        invariant
            i <= count,
            keep == (|record: RecordModel| !(record.rtype is OPT)),
            records_at(data@, pos as int, i as nat) == Some((records, next as int)),
            seqs::views(additional@) == without_opt(records),
            edns == last_edns(records),
        decreases count - i,
    {
        match parse_record(data, next) {
            Some((record, end)) => {
                proof {
                    seqs::lemma_filter_push(records, record@, keep);
                    assert(records.push(record@).drop_last() =~= records);
                    records = records.push(record@);
                }
                if record.rtype == QType::OPT {
                    edns = parse_edns(&record);
                } else {
                    proof {
                        seqs::lemma_views_push(additional@, record);
                    }
                    additional.push(record);
                }
                next = end;
            },
            None => {
                proof {
                    lemma_records_fail(data@, pos as int, (i + 1) as nat, count as nat);
                }
                return None;
            },
        }
        i = i + 1;
    }
    Some((additional, edns))
}

/// The length of the message header.
pub const HEADER_LEN: usize = 12;

/// The four sections encoded behind the header: questions, answers, authority
/// and additional records, as many as the header announces.
pub open spec fn sections(data: Seq<u8>) -> Option<
    (Seq<QuestionModel>, Seq<RecordModel>, Seq<RecordModel>, Seq<RecordModel>),
> {
    match questions_at(data, HEADER_LEN as int, wire::be16(data, 4) as nat) {
        Some((questions, a)) => match records_at(data, a, wire::be16(data, 6) as nat) {
            Some((answers, b)) => match records_at(data, b, wire::be16(data, 8) as nat) {
                Some((authority, c)) => match records_at(data, c, wire::be16(data, 10) as nat) {
                    Some((additional, _)) => Some((questions, answers, authority, additional)),
                    None => None,
                },
                None => None,
            },
            None => None,
        },
        None => None,
    }
}

/// Whether the header announces no more entries than a sane message has.
pub open spec fn sane_counts(data: Seq<u8>) -> bool {
    &&& wire::be16(data, 4) <= 10
    &&& wire::be16(data, 6) <= 500
    &&& wire::be16(data, 8) <= 100
    &&& wire::be16(data, 10) <= 100
}

/// The flag whose bit has the given place value.
pub open spec fn flag(flags: u16, place: int) -> bool {
    flags as int / place % 2 == 1
}

/// The message that some bytes encode.
pub open spec fn message(data: Seq<u8>) -> Option<PacketModel> {
    if data.len() < HEADER_LEN || !sane_counts(data) {
        None
    } else {
        match sections(data) {
            Some((questions, answers, authority, additional)) => {
                let flags = wire::be16(data, 2);
                Some(
                    PacketModel {
                        txid: wire::be16(data, 0),
                        is_response: flag(flags, 0x8000),
                        opcode: (flags / 0x800 % 0x10) as u8,
                        aa: flag(flags, 0x400),
                        truncated: flag(flags, 0x200),
                        rd: flag(flags, 0x100),
                        ra: flag(flags, 0x80),
                        rcode: RCode::with_code((flags % 0x10) as u8),
                        questions,
                        answers,
                        authority,
                        additional: without_opt(additional),
                        edns: last_edns(additional),
                    },
                )
            },
            None => None,
        }
    }
}

/// Parses a DNS message: a UDP payload, or a TCP payload without its length prefix.
pub fn parse_dns(data: &[u8]) -> (res: Option<DnsPacket>)
    ensures
        match message(data@) {
            Some(packet) => res matches Some(p) && p@ == packet,
            None => res is None,
        },
{
    if data.len() < HEADER_LEN {
        return None;
    }
    let txid: u16 = wire::read_be16(data, 0);
    let flags: u16 = wire::read_be16(data, 2);
    let qdcount: usize = wire::read_be16(data, 4) as usize;
    let ancount: usize = wire::read_be16(data, 6) as usize;
    let nscount: usize = wire::read_be16(data, 8) as usize;
    let arcount: usize = wire::read_be16(data, 10) as usize;
    if qdcount > 10 || ancount > 500 || nscount > 100 || arcount > 100 {
        return None;
    }
    assert(((flags & 0x8000) != 0) == (flags / 0x8000 % 2 == 1)) by (bit_vector);
    assert(((flags >> 11) & 0x0F) == flags / 0x800 % 0x10) by (bit_vector);
    assert(((flags & 0x0400) != 0) == (flags / 0x400 % 2 == 1)) by (bit_vector);
    assert(((flags & 0x0200) != 0) == (flags / 0x200 % 2 == 1)) by (bit_vector);
    assert(((flags & 0x0100) != 0) == (flags / 0x100 % 2 == 1)) by (bit_vector);
    assert(((flags & 0x0080) != 0) == (flags / 0x80 % 2 == 1)) by (bit_vector);
    assert((flags & 0x000F) == flags % 0x10) by (bit_vector);
    let (questions, pos): (Vec<DnsQuestion>, usize) = match parse_questions(
        data,
        HEADER_LEN,
        qdcount,
    ) {
        Some(section) => section,
        None => {
            return None;
        },
    };
    let (answers, pos): (Vec<DnsRecord>, usize) = match parse_records(data, pos, ancount) {
        Some(section) => section,
        None => {
            return None;
        },
    };
    let (authority, pos): (Vec<DnsRecord>, usize) = match parse_records(data, pos, nscount) {
        Some(section) => section,
        None => {
            return None;
        },
    };
    let (additional, edns): (Vec<DnsRecord>, Option<EdnsInfo>) = match parse_additional(
        data,
        pos,
        arcount,
    ) {
        Some(section) => section,
        None => {
            return None;
        },
    };
    Some(
        DnsPacket {
            txid,
            is_response: (flags & 0x8000) != 0,
            opcode: ((flags >> 11) & 0x0F) as u8,
            aa: (flags & 0x0400) != 0,
            truncated: (flags & 0x0200) != 0,
            rd: (flags & 0x0100) != 0,
            ra: (flags & 0x0080) != 0,
            rcode: RCode::from_u8((flags & 0x000F) as u8),
            questions,
            answers,
            authority,
            additional,
            edns,
        },
    )
}

/// The message that a TCP payload carries behind its two-byte length.
pub open spec fn framed_message(data: Seq<u8>) -> Option<PacketModel> {
    if data.len() < 2 || data.len() < 2 + wire::be16(data, 0) {
        None
    } else {
        message(data.subrange(2, 2 + wire::be16(data, 0)))
    }
}

/// Parses a DNS message from a TCP payload, where a two-byte length goes before
/// the message (RFC 1035, section 4.2.2).
pub fn parse_dns_tcp(data: &[u8]) -> (res: Option<DnsPacket>)
    ensures
        match framed_message(data@) {
            Some(packet) => res matches Some(p) && p@ == packet,
            None => res is None,
        },
{
    if data.len() < 2 {
        return None;
    }
    let msg_len: usize = wire::read_be16(data, 0) as usize;
    if data.len() - 2 < msg_len {
        return None;
    }
    parse_dns(vstd::slice::slice_subrange(data, 2, 2 + msg_len))
}

} // verus!
