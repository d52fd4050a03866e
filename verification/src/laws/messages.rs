//! Laws of DNS messages.

use vstd::prelude::*;

use crate::address;
use crate::dns;
use crate::dns::{PacketModel, QType, QuestionModel, RCode, RecordModel};
use crate::laws::names;
use crate::laws::numbers;
use crate::text;
use crate::wire;

verus! {

/// Different codes stand for different types.
pub proof fn law_type_codes_are_distinct(a: u16, b: u16)
    requires
        QType::with_code(a) == QType::with_code(b),
    ensures
        a == b,
{
}

/// Different codes stand for different outcomes.
pub proof fn law_response_codes_are_distinct(a: u8, b: u8)
    requires
        RCode::with_code(a) == RCode::with_code(b),
    ensures
        a == b,
{
}

proof fn lemma_questions_len(data: Seq<u8>, pos: int, count: nat)
    ensures
        dns::questions_at(data, pos, count) matches Some((questions, _)) ==> questions.len()
            == count,
    decreases count,
{
    if count > 0 {
        lemma_questions_len(data, pos, (count - 1) as nat);
    }
}

proof fn lemma_records_len(data: Seq<u8>, pos: int, count: nat)
    ensures
        dns::records_at(data, pos, count) matches Some((records, _)) ==> records.len() == count,
    decreases count,
{
    if count > 0 {
        lemma_records_len(data, pos, (count - 1) as nat);
    }
}

/// A message has as many questions, answers and authority records as its header
/// announces, and no more additional records.
pub proof fn law_sections_have_announced_lengths(data: Seq<u8>)
    ensures
        dns::message(data) matches Some(pkt) ==> {
            &&& pkt.questions.len() == wire::be16(data, 4)
            &&& pkt.answers.len() == wire::be16(data, 6)
            &&& pkt.authority.len() == wire::be16(data, 8)
            &&& pkt.additional.len() <= wire::be16(data, 10)
        },
{
    if let Some(pkt) = dns::message(data) {
        let qd = wire::be16(data, 4) as nat;
        let an = wire::be16(data, 6) as nat;
        let ns = wire::be16(data, 8) as nat;
        let ar = wire::be16(data, 10) as nat;
        let start = dns::HEADER_LEN as int;
        lemma_questions_len(data, start, qd);
        let a = (dns::questions_at(data, start, qd)->0).1;
        lemma_records_len(data, a, an);
        let b = (dns::records_at(data, a, an)->0).1;
        lemma_records_len(data, b, ns);
        let c = (dns::records_at(data, b, ns)->0).1;
        lemma_records_len(data, c, ar);
        let records = (dns::records_at(data, c, ar)->0).0;
        records.lemma_filter_len(|record: RecordModel| !(record.rtype is OPT));
    }
}

proof fn lemma_edns_present(records: Seq<RecordModel>)
    ensures
        dns::last_edns(records) is Some <==> exists|i: int|
            0 <= i < records.len() && (#[trigger] records[i]).rtype is OPT,
    decreases records.len(),
{
    if records.len() > 0 {
        let front = records.drop_last();
        lemma_edns_present(front);
        assert(records.last() == records[records.len() - 1]);
        if exists|i: int| 0 <= i < records.len() && (#[trigger] records[i]).rtype is OPT {
            let i = choose|i: int| 0 <= i < records.len() && (#[trigger] records[i]).rtype is OPT;
            if i < records.len() - 1 {
                assert(front[i].rtype is OPT);
            }
        }
        if exists|i: int| 0 <= i < front.len() && (#[trigger] front[i]).rtype is OPT {
            let i = choose|i: int| 0 <= i < front.len() && (#[trigger] front[i]).rtype is OPT;
            assert(records[i].rtype is OPT);
        }
    }
}

/// The EDNS0 pseudo-record is never among the additional records; a message has
/// EDNS0 information where it has additional records and one of them is the
/// pseudo-record.
pub proof fn law_pseudo_record_is_set_apart(data: Seq<u8>)
    ensures
        dns::message(data) matches Some(pkt) ==> {
            &&& forall|i: int|
                0 <= i < pkt.additional.len() ==> !((#[trigger] pkt.additional[i]).rtype is OPT)
            &&& pkt.edns is Some <==> exists|i: int|
                0 <= i < (dns::sections(data)->0).3.len() && (
                #[trigger] (dns::sections(data)->0).3[i]).rtype is OPT
        },
{
    if let Some(pkt) = dns::message(data) {
        let records = (dns::sections(data)->0).3;
        let keep = |record: RecordModel| !(record.rtype is OPT);
        lemma_edns_present(records);
        assert forall|i: int| 0 <= i < pkt.additional.len() implies !((
        #[trigger] pkt.additional[i]).rtype is OPT) by {
            records.lemma_filter_pred(keep, i);
        }
    }
}

/// The two bytes of a number, the more significant first.
pub open spec fn be_bytes(v: u16) -> Seq<u8> {
    seq![(v / 0x100) as u8, (v % 0x100) as u8]
}

pub proof fn lemma_number_at(data: Seq<u8>, i: int, v: u16)
    requires
        0 <= i,
        i + 1 < data.len(),
        data[i] == be_bytes(v)[0],
        data[i + 1] == be_bytes(v)[1],
    ensures
        wire::be16(data, i) == v,
{
}

/// A message in a TCP payload is what it is by itself: behind its length it is
/// read back, whatever follows it.
pub proof fn law_length_prefix_frames_message(msg: Seq<u8>, after: Seq<u8>)
    requires
        msg.len() <= 0xFFFF,
    ensures
        dns::framed_message(be_bytes(msg.len() as u16) + msg + after) == dns::message(msg),
{
    let data = be_bytes(msg.len() as u16) + msg + after;
    lemma_number_at(data, 0, msg.len() as u16);
    assert(data.subrange(2, 2 + msg.len() as int) =~= msg);
}

/// The header of a message with one question and nothing else.
pub open spec fn question_header(txid: u16, flags: u16) -> Seq<u8> {
    be_bytes(txid) + be_bytes(flags) + be_bytes(1) + be_bytes(0) + be_bytes(0) + be_bytes(0)
}

/// A message with one question and nothing else.
pub open spec fn question_message(
    txid: u16,
    flags: u16,
    labels: Seq<Seq<char>>,
    qtype: u16,
    qclass: u16,
) -> Seq<u8> {
    question_header(txid, flags) + names::encoded(labels) + (be_bytes(qtype) + be_bytes(qclass))
}

proof fn lemma_header(txid: u16, flags: u16, rest: Seq<u8>)
    ensures
        question_header(txid, flags).len() == dns::HEADER_LEN,
        ({
            let data = question_header(txid, flags) + rest;
            &&& wire::be16(data, 0) == txid
            &&& wire::be16(data, 2) == flags
            &&& wire::be16(data, 4) == 1
            &&& wire::be16(data, 6) == 0
            &&& wire::be16(data, 8) == 0
            &&& wire::be16(data, 10) == 0
        }),
{
    let data = question_header(txid, flags) + rest;
    lemma_number_at(data, 0, txid);
    lemma_number_at(data, 2, flags);
    lemma_number_at(data, 4, 1);
    lemma_number_at(data, 6, 0);
    lemma_number_at(data, 8, 0);
    lemma_number_at(data, 10, 0);
}

proof fn lemma_question(header: Seq<u8>, labels: Seq<Seq<char>>, qtype: u16, qclass: u16)
    requires
        names::are_labels(labels),
    ensures
        ({
            let data = header + names::encoded(labels) + (be_bytes(qtype) + be_bytes(qclass));
            dns::question_at(data, header.len() as int) == Some(
                (
                    QuestionModel {
                        name: text::join(labels, "."@),
                        qtype: QType::with_code(qtype),
                        qclass,
                    },
                    data.len() as int,
                ),
            )
        }),
{
    let tail = be_bytes(qtype) + be_bytes(qclass);
    let data = header + names::encoded(labels) + tail;
    names::law_name_round_trip(header, labels, tail);
    names::lemma_encoded_len(labels);
    let pos = (header.len() + dns::name_len(labels) + 1) as int;
    lemma_number_at(data, pos, qtype);
    lemma_number_at(data, pos + 2, qclass);
}

/// A message with one question is read back: its identifier, its flags and the
/// question.
pub proof fn law_question_round_trip(
    txid: u16,
    flags: u16,
    labels: Seq<Seq<char>>,
    qtype: u16,
    qclass: u16,
)
    requires
        names::are_labels(labels),
    ensures
        dns::message(question_message(txid, flags, labels, qtype, qclass)) == Some(
            PacketModel {
                txid,
                is_response: dns::flag(flags, 0x8000),
                opcode: (flags / 0x800 % 0x10) as u8,
                aa: dns::flag(flags, 0x400),
                truncated: dns::flag(flags, 0x200),
                rd: dns::flag(flags, 0x100),
                ra: dns::flag(flags, 0x80),
                rcode: RCode::with_code((flags % 0x10) as u8),
                questions: seq![
                    QuestionModel {
                        name: text::join(labels, "."@),
                        qtype: QType::with_code(qtype),
                        qclass,
                    },
                ],
                answers: Seq::empty(),
                authority: Seq::empty(),
                additional: Seq::empty(),
                edns: None,
            },
        ),
{
    let data = question_message(txid, flags, labels, qtype, qclass);
    lemma_header(txid, flags, names::encoded(labels) + (be_bytes(qtype) + be_bytes(qclass)));
    assert(data =~= question_header(txid, flags) + (names::encoded(labels) + (be_bytes(qtype)
        + be_bytes(qclass))));
    lemma_question(question_header(txid, flags), labels, qtype, qclass);
    reveal_with_fuel(dns::questions_at, 2);
    let question = QuestionModel {
        name: text::join(labels, "."@),
        qtype: QType::with_code(qtype),
        qclass,
    };
    assert(Seq::empty().push(question) =~= seq![question]);
    assert(dns::questions_at(data, 12, 1) == Some((seq![question], data.len() as int)));
    assert(dns::without_opt(Seq::empty()) =~= Seq::empty()) by {
        reveal(Seq::filter);
    }
}

/// A resource record whose name is encoded without pointers.
pub open spec fn record_bytes(
    labels: Seq<Seq<char>>,
    rtype: u16,
    rclass: u16,
    ttl: u32,
    rdata: Seq<u8>,
) -> Seq<u8> {
    names::encoded(labels) + (be_bytes(rtype) + be_bytes(rclass) + be_bytes(
        (ttl / 0x1_0000) as u16,
    ) + be_bytes((ttl % 0x1_0000) as u16) + be_bytes(rdata.len() as u16) + rdata)
}

/// A resource record is read back, wherever in a message it stands.
pub proof fn law_record_round_trip(
    before: Seq<u8>,
    labels: Seq<Seq<char>>,
    rtype: u16,
    rclass: u16,
    ttl: u32,
    rdata: Seq<u8>,
    after: Seq<u8>,
)
    requires
        names::are_labels(labels),
        rdata.len() <= 0xFFFF,
    ensures
        ({
            let record = record_bytes(labels, rtype, rclass, ttl, rdata);
            &&& dns::record_at(before + record + after, before.len() as int) matches Some((r, end))
            &&& end == before.len() + record.len()
            &&& r.name == text::join(labels, "."@)
            &&& r.rtype == QType::with_code(rtype)
            &&& r.rclass == rclass
            &&& r.ttl == ttl
            &&& r.rdata == rdata
            &&& r.parsed_addr == dns::address_of(r.rtype, rdata)
        }),
{
    let name = names::encoded(labels);
    let fields = be_bytes(rtype) + be_bytes(rclass) + be_bytes((ttl / 0x1_0000) as u16) + be_bytes(
        (ttl % 0x1_0000) as u16,
    ) + be_bytes(rdata.len() as u16) + rdata;
    let record = record_bytes(labels, rtype, rclass, ttl, rdata);
    let data = before + record + after;
    let pos = (before.len() + dns::name_len(labels) + 1) as int;
    names::lemma_encoded_len(labels);
    names::law_name_round_trip(before, labels, fields + after);
    assert(data =~= before + name + (fields + after));
    assert(data =~= (before + name) + fields + after);
    assert(fields.len() == 10 + rdata.len());
    lemma_number_at(data, pos, rtype);
    lemma_number_at(data, pos + 2, rclass);
    lemma_number_at(data, pos + 4, (ttl / 0x1_0000) as u16);
    lemma_number_at(data, pos + 6, (ttl % 0x1_0000) as u16);
    lemma_number_at(data, pos + 8, rdata.len() as u16);
    assert(data.subrange(pos + 10, pos + 10 + rdata.len()) =~= rdata);
}

/// A question is its name and two numbers behind it, if the message holds them.
pub proof fn law_question_follows_its_name(data: Seq<u8>, offset: int)
    ensures
        match dns::name_at(data, offset) {
            Some((name, pos)) if pos + 4 <= data.len() => dns::question_at(data, offset) == Some(
                (
                    QuestionModel {
                        name,
                        qtype: QType::with_code(wire::be16(data, pos)),
                        qclass: wire::be16(data, pos + 2),
                    },
                    pos + 4,
                ),
            ),
            _ => dns::question_at(data, offset) is None,
        },
{
}

/// A resource record is its name, four numbers and as many bytes as the last of
/// them says, if the message holds them.
pub proof fn law_record_follows_its_name(data: Seq<u8>, offset: int)
    ensures
        match dns::name_at(data, offset) {
            Some((name, pos)) if pos + 10 <= data.len() && pos + 10 + wire::be16(data, pos + 8)
                <= data.len() => {
                let end = pos + 10 + wire::be16(data, pos + 8);
                &&& dns::record_at(data, offset) matches Some((record, e))
                &&& e == end
                &&& record.name == name
                &&& record.rtype == QType::with_code(wire::be16(data, pos))
                &&& record.rclass == wire::be16(data, pos + 2)
                &&& record.ttl == wire::be32(data, pos + 4)
                &&& record.rdata == data.subrange(pos + 10, end)
            },
            _ => dns::record_at(data, offset) is None,
        },
{
}

/// The name that the data of a CNAME, NS or PTR record holds is decoded where the
/// data starts, against the whole message; where it cannot be, the record is
/// returned without it, as are records of other types.
pub proof fn law_record_names_its_target(data: Seq<u8>, offset: int)
    ensures
        dns::record_at(data, offset) matches Some((record, end)) ==> record.parsed_name == if (
        record.rtype is CNAME || record.rtype is NS || record.rtype is PTR) {
            match dns::name_at(data, end - record.rdata.len()) {
                Some((name, _)) => Some(name),
                None => None,
            }
        } else {
            None
        },
{
    names::law_name_lies_in_message(data, offset);
}

/// The type that a code stands for.
pub proof fn law_type_of_code(v: u16)
    ensures
        QType::with_code(1) == QType::A,
        QType::with_code(2) == QType::NS,
        QType::with_code(5) == QType::CNAME,
        QType::with_code(6) == QType::SOA,
        QType::with_code(10) == QType::NULL,
        QType::with_code(12) == QType::PTR,
        QType::with_code(15) == QType::MX,
        QType::with_code(16) == QType::TXT,
        QType::with_code(28) == QType::AAAA,
        QType::with_code(33) == QType::SRV,
        QType::with_code(41) == QType::OPT,
        v != 1 && v != 2 && v != 5 && v != 6 && v != 10 && v != 12 && v != 15 && v != 16 && v
            != 28 && v != 33 && v != 41 ==> QType::with_code(v) == QType::Other(v),
{
}

/// The mnemonic of a type.
pub proof fn law_mnemonic_of_type(v: u16)
    ensures
        QType::A.mnemonic() == "A"@,
        QType::AAAA.mnemonic() == "AAAA"@,
        QType::NS.mnemonic() == "NS"@,
        QType::CNAME.mnemonic() == "CNAME"@,
        QType::MX.mnemonic() == "MX"@,
        QType::TXT.mnemonic() == "TXT"@,
        QType::PTR.mnemonic() == "PTR"@,
        QType::SOA.mnemonic() == "SOA"@,
        QType::SRV.mnemonic() == "SRV"@,
        QType::OPT.mnemonic() == "OPT"@,
        QType::NULL.mnemonic() == "NULL"@,
        QType::Other(v).mnemonic() == "OTHER"@,
{
}

/// The outcome that a code stands for, and its mnemonic.
pub proof fn law_outcome_of_code(v: u8)
    ensures
        RCode::with_code(0) == RCode::NoError,
        RCode::with_code(1) == RCode::FormErr,
        RCode::with_code(2) == RCode::ServFail,
        RCode::with_code(3) == RCode::NXDomain,
        RCode::with_code(4) == RCode::NotImp,
        RCode::with_code(5) == RCode::Refused,
        v > 5 ==> RCode::with_code(v) == RCode::Other(v),
        RCode::NoError.mnemonic() == "NOERROR"@,
        RCode::FormErr.mnemonic() == "FORMERR"@,
        RCode::ServFail.mnemonic() == "SERVFAIL"@,
        RCode::NXDomain.mnemonic() == "NXDOMAIN"@,
        RCode::NotImp.mnemonic() == "NOTIMP"@,
        RCode::Refused.mnemonic() == "REFUSED"@,
        RCode::Other(v).mnemonic() == "OTHER"@,
{
}

/// The four bytes of a number, the more significant first.
pub open spec fn be_bytes32(v: u32) -> Seq<u8> {
    be_bytes((v / 0x1_0000) as u16) + be_bytes((v % 0x1_0000) as u16)
}

/// What stands behind the name of a question is its type and its class; a message
/// that ends before that has no question there.
pub proof fn law_question_is_read_back(data: Seq<u8>, offset: int, qtype: u16, qclass: u16)
    requires
        dns::name_at(data, offset) is Some,
    ensures
        ({
            let (name, pos) = dns::name_at(data, offset)->0;
            &&& names::stands_at(data, pos, be_bytes(qtype) + be_bytes(qclass))
                ==> dns::question_at(data, offset) == Some(
                (
                    QuestionModel { name, qtype: QType::with_code(qtype), qclass },
                    pos + 4,
                ),
            )
            &&& data.len() < pos + 4 ==> dns::question_at(data, offset) is None
        }),
{
    let (name, pos) = dns::name_at(data, offset)->0;
    names::law_name_lies_in_message(data, offset);
    let bytes = be_bytes(qtype) + be_bytes(qclass);
    if names::stands_at(data, pos, bytes) {
        assert forall|i: int| 0 <= i < 4 implies data[pos + i] == #[trigger] bytes[i] by {
            assert(data.subrange(pos, pos + 4)[i] == bytes[i]);
        }
        assert(data[pos + 0] == bytes[0] && data[pos + 1] == bytes[1]);
        assert(data[pos + 2] == bytes[2] && data[pos + 3] == bytes[3]);
        lemma_number_at(data, pos, qtype);
        lemma_number_at(data, pos + 2, qclass);
    }
}

/// Where there is no name there is neither a question nor a record.
pub proof fn law_no_entry_without_name(data: Seq<u8>, offset: int)
    requires
        dns::name_at(data, offset) is None,
    ensures
        dns::question_at(data, offset) is None,
        dns::record_at(data, offset) is None,
{
}

/// What stands behind the name of a record is its type, its class, its time to live,
/// the length of its data and the data; a message that ends before that has no record
/// there. An A record of four bytes has its address in dotted form, an AAAA record of
/// sixteen in groups; a CNAME, NS or PTR record has the name that stands where its
/// data does, if one can be decoded there.
pub proof fn law_record_is_read_back(
    data: Seq<u8>,
    offset: int,
    rtype: u16,
    rclass: u16,
    ttl: u32,
    rdata: Seq<u8>,
)
    requires
        dns::name_at(data, offset) is Some,
        rdata.len() <= 0xFFFF,
        names::stands_at(
            data,
            (dns::name_at(data, offset)->0).1,
            be_bytes(rtype) + be_bytes(rclass) + be_bytes32(ttl) + be_bytes(rdata.len() as u16)
                + rdata,
        ),
    ensures
        ({
            let (name, pos) = dns::name_at(data, offset)->0;
            dns::record_at(data, offset) == Some(
                (
                    RecordModel {
                        name,
                        rtype: QType::with_code(rtype),
                        rclass,
                        ttl,
                        rdata,
                        parsed_addr: if rtype == 1 && rdata.len() == 4 {
                            Some(address::dotted(rdata))
                        } else if rtype == 28 && rdata.len() == 16 {
                            Some(address::grouped(rdata))
                        } else {
                            None
                        },
                        parsed_name: if rtype == 5 || rtype == 2 || rtype == 12 {
                            match dns::name_at(data, pos + 10) {
                                Some((target, _)) => Some(target),
                                None => None,
                            }
                        } else {
                            None
                        },
                    },
                    pos + 10 + rdata.len(),
                ),
            )
        }),
{
    let (name, pos) = dns::name_at(data, offset)->0;
    names::law_name_lies_in_message(data, offset);
    let bytes = be_bytes(rtype) + be_bytes(rclass) + be_bytes32(ttl) + be_bytes(
        rdata.len() as u16,
    ) + rdata;
    assert forall|i: int| 0 <= i < bytes.len() implies data[pos + i] == #[trigger] bytes[i] by {
        assert(data.subrange(pos, pos + bytes.len())[i] == bytes[i]);
    }
    assert(data[pos + 0] == bytes[0] && data[pos + 1] == bytes[1]);
    assert(data[pos + 2] == bytes[2] && data[pos + 3] == bytes[3]);
    assert(data[pos + 4] == bytes[4] && data[pos + 5] == bytes[5]);
    assert(data[pos + 6] == bytes[6] && data[pos + 7] == bytes[7]);
    assert(data[pos + 8] == bytes[8] && data[pos + 9] == bytes[9]);
    lemma_number_at(data, pos, rtype);
    lemma_number_at(data, pos + 2, rclass);
    lemma_number_at(data, pos + 4, (ttl / 0x1_0000) as u16);
    lemma_number_at(data, pos + 6, (ttl % 0x1_0000) as u16);
    lemma_number_at(data, pos + 8, rdata.len() as u16);
    assert(data.subrange(pos + 10, pos + 10 + rdata.len()) =~= rdata) by {
        assert forall|i: int| 0 <= i < rdata.len() implies data[pos + 10 + i]
            == #[trigger] rdata[i] by {
            assert(data[pos + (10 + i)] == bytes[10 + i]);
        }
    }
}

/// A message that ends before a record does has no record there.
pub proof fn law_cut_off_record_is_rejected(data: Seq<u8>, offset: int)
    requires
        dns::name_at(data, offset) is Some,
        ({
            let pos = (dns::name_at(data, offset)->0).1;
            ||| data.len() < pos + 10
            ||| data.len() < pos + 10 + 256 * data[pos + 8] + data[pos + 9]
        }),
    ensures
        dns::record_at(data, offset) is None,
{
    names::law_name_lies_in_message(data, offset);
}

/// The flags of a message.
pub struct Flags {
    pub response: bool,
    pub opcode: u8,
    pub aa: bool,
    pub tc: bool,
    pub rd: bool,
    pub ra: bool,
    pub reserved: u8,
    pub rcode: u8,
}

/// One for a set bit.
pub open spec fn bit(b: bool) -> int {
    if b {
        1
    } else {
        0
    }
}

/// The number that the flags make up.
pub open spec fn flags_number(f: Flags) -> int {
    0x8000 * bit(f.response) + 0x800 * f.opcode + 0x400 * bit(f.aa) + 0x200 * bit(f.tc) + 0x100
        * bit(f.rd) + 0x80 * bit(f.ra) + 0x10 * f.reserved + f.rcode
}

/// The header of a message: its identifier, its flags, and how many entries each of
/// its sections has.
pub open spec fn header_bytes(txid: u16, f: Flags, qd: nat, an: nat, ns: nat, ar: nat) -> Seq<u8> {
    be_bytes(txid) + be_bytes(flags_number(f) as u16) + be_bytes(qd as u16) + be_bytes(an as u16)
        + be_bytes(ns as u16) + be_bytes(ar as u16)
}

/// Questions that stand one behind the other, the next place behind each.
pub open spec fn questions_stand(
    data: Seq<u8>,
    questions: Seq<QuestionModel>,
    places: Seq<int>,
) -> bool {
    &&& places.len() == questions.len() + 1
    &&& forall|i: int|
        0 <= i < questions.len() ==> dns::question_at(data, places[i]) == Some(
            (#[trigger] questions[i], places[i + 1]),
        )
}

/// Records that stand one behind the other, the next place behind each.
pub open spec fn records_stand(
    data: Seq<u8>,
    records: Seq<RecordModel>,
    places: Seq<int>,
) -> bool {
    &&& places.len() == records.len() + 1
    &&& forall|i: int|
        0 <= i < records.len() ==> dns::record_at(data, places[i]) == Some(
            (#[trigger] records[i], places[i + 1]),
        )
}

proof fn lemma_questions_stand(
    data: Seq<u8>,
    questions: Seq<QuestionModel>,
    places: Seq<int>,
    k: nat,
)
    requires
        questions_stand(data, questions, places),
        k <= questions.len(),
    ensures
        dns::questions_at(data, places[0], k) == Some((questions.take(k as int), places[k as int])),
    decreases k,
{
    if k == 0 {
        assert(questions.take(0) =~= Seq::empty());
    } else {
        lemma_questions_stand(data, questions, places, (k - 1) as nat);
        let found = (questions[k - 1], places[k - 1 + 1]);
        assert(dns::question_at(data, places[k - 1]) == Some(found));
        assert(questions.take(k - 1).push(questions[k - 1]) =~= questions.take(k as int));
    }
}

proof fn lemma_records_stand(
    data: Seq<u8>,
    records: Seq<RecordModel>,
    places: Seq<int>,
    k: nat,
)
    requires
        records_stand(data, records, places),
        k <= records.len(),
    ensures
        dns::records_at(data, places[0], k) == Some((records.take(k as int), places[k as int])),
    decreases k,
{
    if k == 0 {
        assert(records.take(0) =~= Seq::empty());
    } else {
        lemma_records_stand(data, records, places, (k - 1) as nat);
        assert(dns::record_at(data, places[k - 1]) == Some((records[k - 1], places[k - 1 + 1])));
        assert(records.take(k - 1).push(records[k - 1]) =~= records.take(k as int));
    }
}

proof fn lemma_header_numbers(
    data: Seq<u8>,
    txid: u16,
    f: Flags,
    qd: nat,
    an: nat,
    ns: nat,
    ar: nat,
)
    requires
        names::stands_at(data, 0, header_bytes(txid, f, qd, an, ns, ar)),
        f.opcode < 16,
        f.reserved < 8,
        f.rcode < 16,
        qd <= 0xFFFF,
        an <= 0xFFFF,
        ns <= 0xFFFF,
        ar <= 0xFFFF,
    ensures
        data.len() >= 12,
        0 <= flags_number(f) <= 0xFFFF,
        wire::be16(data, 0) == txid,
        wire::be16(data, 2) == flags_number(f),
        wire::be16(data, 4) == qd,
        wire::be16(data, 6) == an,
        wire::be16(data, 8) == ns,
        wire::be16(data, 10) == ar,
{
    let bytes = header_bytes(txid, f, qd, an, ns, ar);
    assert forall|i: int| 0 <= i < 12 implies data[i] == #[trigger] bytes[i] by {
        assert(data.subrange(0, 12)[i] == bytes[i]);
    }
    assert(data[0] == bytes[0] && data[1] == bytes[1] && data[2] == bytes[2] && data[3]
        == bytes[3]);
    assert(data[4] == bytes[4] && data[5] == bytes[5] && data[6] == bytes[6] && data[7]
        == bytes[7]);
    assert(data[8] == bytes[8] && data[9] == bytes[9] && data[10] == bytes[10] && data[11]
        == bytes[11]);
    lemma_number_at(data, 0, txid);
    lemma_number_at(data, 2, flags_number(f) as u16);
    lemma_number_at(data, 4, qd as u16);
    lemma_number_at(data, 6, an as u16);
    lemma_number_at(data, 8, ns as u16);
    lemma_number_at(data, 10, ar as u16);
}

proof fn lemma_digit(n: int, high: int, digit: int, low: int, place: int, radix: int)
    requires
        0 <= low < place,
        0 <= digit < radix,
        n == place * (radix * high + digit) + low,
    ensures
        n / place % radix == digit,
{
    let q = radix * high + digit;
    vstd::arithmetic::mul::lemma_mul_is_commutative(place, q);
    vstd::arithmetic::mul::lemma_mul_is_commutative(radix, high);
    vstd::arithmetic::div_mod::lemma_fundamental_div_mod_converse(
        n,
        place,
        q,
        low,
    );
    vstd::arithmetic::div_mod::lemma_fundamental_div_mod_converse(
        q,
        radix,
        high,
        digit,
    );
}

proof fn lemma_flags(f: Flags)
    requires
        f.opcode < 16,
        f.reserved < 8,
        f.rcode < 16,
    ensures
        ({
            let n = flags_number(f) as u16;
            &&& dns::flag(n, 0x8000) == f.response
            &&& (n / 0x800 % 0x10) as u8 == f.opcode
            &&& dns::flag(n, 0x400) == f.aa
            &&& dns::flag(n, 0x200) == f.tc
            &&& dns::flag(n, 0x100) == f.rd
            &&& dns::flag(n, 0x80) == f.ra
            &&& (n % 0x10) as u8 == f.rcode
        }),
{
    let n = flags_number(f);
    let (qr, op, aa, tc) = (bit(f.response), f.opcode as int, bit(f.aa), bit(f.tc));
    let (rd, ra, z, rc) = (bit(f.rd), bit(f.ra), f.reserved as int, f.rcode as int);
    let low7 = 0x10 * z + rc;
    let low8 = 0x80 * ra + low7;
    let low9 = 0x100 * rd + low8;
    let low10 = 0x200 * tc + low9;
    let low11 = 0x400 * aa + low10;
    let low15 = 0x800 * op + low11;
    assert(n == 0x8000 * qr + low15);
    lemma_digit(n, 0, qr, low15, 0x8000, 2);
    lemma_digit(n, qr, op, low11, 0x800, 0x10);
    let h11 = 0x10 * qr + op;
    lemma_digit(n, h11, aa, low10, 0x400, 2);
    let h10 = 2 * h11 + aa;
    lemma_digit(n, h10, tc, low9, 0x200, 2);
    let h9 = 2 * h10 + tc;
    lemma_digit(n, h9, rd, low8, 0x100, 2);
    let h8 = 2 * h9 + rd;
    lemma_digit(n, h8, ra, low7, 0x80, 2);
    let h7 = 2 * h8 + ra;
    lemma_digit(n, 8 * h7 + z, rc, 0, 1, 0x10);
}

/// Whether the last of some records that is an OPT record is at a place.
pub open spec fn last_opt(records: Seq<RecordModel>, i: int) -> bool {
    &&& 0 <= i < records.len()
    &&& records[i].rtype == QType::OPT
    &&& forall|j: int| i < j < records.len() ==> (#[trigger] records[j]).rtype != QType::OPT
}

proof fn lemma_last_opt(records: Seq<RecordModel>, i: int)
    requires
        last_opt(records, i),
    ensures
        dns::last_edns(records) == Some(dns::edns_of(records[i])),
    decreases records.len(),
{
    if i < records.len() - 1 {
        assert(records[records.len() - 1].rtype != QType::OPT);
        assert(last_opt(records.drop_last(), i));
        lemma_last_opt(records.drop_last(), i);
    }
}

/// A message is its header and its sections: the identifier, the flags, and behind
/// the twelve bytes of the header as many questions, answers, authority records and
/// additional records as it announces, one behind the other, if there are at most 10,
/// 500, 100 and 100 of them. OPT records are left out of the additional ones.
#[verifier::rlimit(40)]
pub proof fn law_message_is_read_back(
    data: Seq<u8>,
    txid: u16,
    f: Flags,
    questions: Seq<QuestionModel>,
    answers: Seq<RecordModel>,
    authority: Seq<RecordModel>,
    additional: Seq<RecordModel>,
    places: (Seq<int>, Seq<int>, Seq<int>, Seq<int>),
)
    requires
        f.opcode < 16,
        f.reserved < 8,
        f.rcode < 16,
        questions.len() <= 10,
        answers.len() <= 500,
        authority.len() <= 100,
        additional.len() <= 100,
        names::stands_at(
            data,
            0,
            header_bytes(
                txid,
                f,
                questions.len(),
                answers.len(),
                authority.len(),
                additional.len(),
            ),
        ),
        questions_stand(data, questions, places.0),
        records_stand(data, answers, places.1),
        records_stand(data, authority, places.2),
        records_stand(data, additional, places.3),
        places.0[0] == 12,
        places.1[0] == places.0.last(),
        places.2[0] == places.1.last(),
        places.3[0] == places.2.last(),
    ensures
        ({
            &&& dns::message(data) matches Some(pkt)
            &&& pkt.txid == txid
            &&& pkt.is_response == f.response
            &&& pkt.opcode == f.opcode
            &&& pkt.aa == f.aa
            &&& pkt.truncated == f.tc
            &&& pkt.rd == f.rd
            &&& pkt.ra == f.ra
            &&& pkt.rcode == RCode::with_code(f.rcode)
            &&& pkt.questions == questions
            &&& pkt.answers == answers
            &&& pkt.authority == authority
            &&& pkt.additional == additional.filter(|r: RecordModel| r.rtype != QType::OPT)
            &&& pkt.edns is Some <==> exists|i: int| last_opt(additional, i)
            &&& forall|i: int| #[trigger]
                last_opt(additional, i) ==> pkt.edns == Some(dns::edns_of(additional[i]))
        }),
{
    lemma_header_numbers(
        data,
        txid,
        f,
        questions.len(),
        answers.len(),
        authority.len(),
        additional.len(),
    );
    lemma_flags(f);
    lemma_questions_stand(data, questions, places.0, questions.len());
    lemma_records_stand(data, answers, places.1, answers.len());
    lemma_records_stand(data, authority, places.2, authority.len());
    lemma_records_stand(data, additional, places.3, additional.len());
    assert(questions.take(questions.len() as int) =~= questions);
    assert(answers.take(answers.len() as int) =~= answers);
    assert(authority.take(authority.len() as int) =~= authority);
    assert(additional.take(additional.len() as int) =~= additional);
    let keep = |r: RecordModel| r.rtype != QType::OPT;
    let kept = |r: RecordModel| !(r.rtype is OPT);
    assert(keep =~= kept);
    assert forall|i: int| #[trigger] last_opt(additional, i) implies dns::last_edns(additional)
        == Some(dns::edns_of(additional[i])) by {
        lemma_last_opt(additional, i);
    }
    lemma_edns_somewhere(additional);
}

proof fn lemma_edns_somewhere(records: Seq<RecordModel>)
    ensures
        dns::last_edns(records) is Some ==> exists|i: int| last_opt(records, i),
    decreases records.len(),
{
    if records.len() > 0 {
        let n = records.len() - 1;
        if records.last().rtype is OPT {
            assert(last_opt(records, n));
        } else {
            lemma_edns_somewhere(records.drop_last());
            if exists|i: int| last_opt(records.drop_last(), i) {
                let i = choose|i: int| last_opt(records.drop_last(), i);
                assert forall|j: int| i < j < records.len() implies (#[trigger] records[j]).rtype
                    != QType::OPT by {
                    if j < n {
                        assert(records.drop_last()[j].rtype != QType::OPT);
                    }
                }
                assert(last_opt(records, i));
            }
        }
    }
}

/// A message is rejected where it is shorter than a header, or announces more than 10
/// questions, 500 answers, 100 authority records or 100 additional records.
pub proof fn law_insane_message_is_rejected(data: Seq<u8>)
    requires
        data.len() < 12 || 256 * data[4] + data[5] > 10 || 256 * data[6] + data[7] > 500 || 256
            * data[8] + data[9] > 100 || 256 * data[10] + data[11] > 100,
    ensures
        dns::message(data) is None,
{
}

/// A message is rejected where one of the questions that it announces cannot be read.
pub proof fn law_message_with_broken_question_is_rejected(
    data: Seq<u8>,
    questions: Seq<QuestionModel>,
    places: Seq<int>,
)
    requires
        data.len() >= 12,
        questions_stand(data, questions, places),
        places[0] == 12,
        256 * data[4] + data[5] > questions.len(),
        dns::question_at(data, places.last()) is None,
    ensures
        dns::message(data) is None,
{
    let n = questions.len();
    lemma_questions_stand(data, questions, places, n);
    assert(dns::questions_at(data, 12, n + 1) is None);
    dns::lemma_questions_fail(data, 12, n + 1, wire::be16(data, 4) as nat);
}

/// A message is rejected where one of the records that it announces cannot be read:
/// among them, counted from the first answer on over all three sections, those that
/// can be read stand one behind the other.
#[verifier::rlimit(40)]
pub proof fn law_message_with_broken_record_is_rejected(
    data: Seq<u8>,
    questions: Seq<QuestionModel>,
    question_places: Seq<int>,
    records: Seq<RecordModel>,
    places: Seq<int>,
)
    requires
        data.len() >= 12,
        questions_stand(data, questions, question_places),
        question_places[0] == 12,
        256 * data[4] + data[5] == questions.len(),
        records_stand(data, records, places),
        places[0] == question_places.last(),
        256 * data[6] + data[7] + 256 * data[8] + data[9] + 256 * data[10] + data[11]
            > records.len(),
        dns::record_at(data, places.last()) is None,
    ensures
        dns::message(data) is None,
{
    let an = wire::be16(data, 6) as nat;
    let ns = wire::be16(data, 8) as nat;
    let ar = wire::be16(data, 10) as nat;
    let n = records.len();
    lemma_questions_stand(data, questions, question_places, questions.len());
    let start = places[0];
    if n < an {
        lemma_records_stand(data, records, places, n);
        assert(dns::records_at(data, start, n + 1) is None);
        dns::lemma_records_fail(data, start, n + 1, an);
    } else {
        lemma_records_stand(data, records, places, an);
        lemma_records_from(data, records, places, an as int);
        let second = records.skip(an as int);
        let second_places = places.skip(an as int);
        let m = (n - an) as nat;
        if m < ns {
            lemma_records_stand(data, second, second_places, m);
            assert(second_places[m as int] == places.last());
            assert(dns::records_at(data, second_places[0], m + 1) is None);
            dns::lemma_records_fail(data, second_places[0], m + 1, ns);
        } else {
            lemma_records_stand(data, second, second_places, ns);
            lemma_records_from(data, second, second_places, ns as int);
            let third = second.skip(ns as int);
            let third_places = second_places.skip(ns as int);
            let k = (m - ns) as nat;
            lemma_records_stand(data, third, third_places, k);
            assert(third_places[k as int] == places.last());
            assert(dns::records_at(data, third_places[0], k + 1) is None);
            dns::lemma_records_fail(data, third_places[0], k + 1, ar);
        }
    }
}

proof fn lemma_records_from(
    data: Seq<u8>,
    records: Seq<RecordModel>,
    places: Seq<int>,
    k: int,
)
    requires
        records_stand(data, records, places),
        0 <= k <= records.len(),
    ensures
        records_stand(data, records.skip(k), places.skip(k)),
{
    let rest = records.skip(k);
    let rest_places = places.skip(k);
    assert forall|i: int| 0 <= i < rest.len() implies dns::record_at(data, rest_places[i]) == Some(
        (#[trigger] rest[i], rest_places[i + 1]),
    ) by {
        assert(dns::record_at(data, places[k + i]) == Some((records[k + i], places[k + i + 1])));
    }
}

/// The class of an OPT record is a payload size, and its time to live is made of the
/// extended response code, the version, the DO bit and fifteen other bits.
pub proof fn law_edns_is_read_back(
    record: RecordModel,
    ext_rcode: u8,
    version: u8,
    dnssec_ok: bool,
    other: int,
)
    requires
        0 <= other < 0x8000,
        record.ttl == 0x100_0000 * ext_rcode + 0x1_0000 * version + 0x8000 * bit(dnssec_ok) + other,
    ensures
        dns::edns_of(record) == (dns::EdnsInfo {
            udp_payload_size: record.rclass,
            ext_rcode,
            version,
            dnssec_ok,
        }),
{
    let low = 0x8000 * bit(dnssec_ok) + other;
    let n = record.ttl as int;
    lemma_digit(n, 0, ext_rcode as int, 0x1_0000 * version + low, 0x100_0000, 0x100);
    lemma_digit(n, ext_rcode as int, version as int, low, 0x1_0000, 0x100);
    lemma_digit(n, 0x100 * ext_rcode + version, bit(dnssec_ok), other, 0x8000, 2);
}

/// A TCP payload that ends before its message does is rejected.
pub proof fn law_cut_off_message_is_rejected(data: Seq<u8>)
    requires
        data.len() < 2 || data.len() < 2 + 256 * data[0] + data[1],
    ensures
        dns::framed_message(data) is None,
{
}

/// A name is suspiciously long where it has more than 100 bytes, or one of its labels
/// more than 30, and only there.
pub proof fn law_long_name(labels: Seq<Seq<char>>)
    requires
        labels.len() > 0,
        forall|i: int| 0 <= i < labels.len() ==> !(#[trigger] labels[i]).contains('.'),
    ensures
        dns::is_long_name(text::join(labels, "."@)) <==> text::byte_len(text::join(labels, "."@))
            > 100 || exists|i: int|
            0 <= i < labels.len() && text::byte_len(#[trigger] labels[i]) > 30,
{
    numbers::lemma_split_join(labels);
}

/// A message asks for a long name where one of its questions does, whichever it is.
pub proof fn law_any_question_may_be_long(pkt: PacketModel)
    ensures
        pkt.has_long_name() <==> exists|i: int|
            0 <= i < pkt.questions.len() && dns::is_long_name(#[trigger] pkt.questions[i].name),
{
}

} // verus!
