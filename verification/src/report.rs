//! The report on a whole capture.

use vstd::prelude::*;

use crate::address;
use crate::analyzer::{Analyzer, AnalyzerModel};
use crate::dns;
use crate::dns::{DnsPacket, PacketModel};
use crate::event;
use crate::event::{
    DnsEvent, EventModel, ReportSummary, Severity, SummaryModel, TimedEvent, TimedModel, Timestamp,
};
use crate::net;
use crate::root_cause;
use crate::root_cause::{RootCauseModel, RootCauseReport};
use crate::seqs;
use crate::text;

verus! {

/// Whether a capture file is in the PCAPng format: it starts with the type of a
/// section header block.
pub open spec fn starts_with_section_header(data: Seq<u8>) -> bool {
    data.len() >= 4 && data.take(4) == seq![0x0Au8, 0x0Du8, 0x0Du8, 0x0Au8]
}

/// Whether a capture file is in the PCAPng format.
pub fn is_pcapng(data: &[u8]) -> (res: bool)
    ensures
        res == starts_with_section_header(data@),
{
    let res: bool = data.len() >= 4 && data[0] == 0x0A && data[1] == 0x0D && data[2] == 0x0D
        && data[3] == 0x0A;
    proof {
        if res {
            assert(data@.take(4) =~= seq![0x0Au8, 0x0Du8, 0x0Du8, 0x0Au8]);
        } else if data@.len() >= 4 {
            let magic = seq![0x0Au8, 0x0Du8, 0x0Du8, 0x0Au8];
            let start = data@.take(4);
            assert(start[0] != magic[0] || start[1] != magic[1] || start[2] != magic[2] || start[3]
                != magic[3]);
        }
    }
    res
}

/// A captured Ethernet frame and its time.
#[derive(Debug, Clone)]
pub struct CapturedFrame {
    pub ts: Timestamp,
    pub data: Vec<u8>,
}

/// What a [`CapturedFrame`] holds.
pub struct FrameModel {
    pub ts: Timestamp,
    pub data: Seq<u8>,
}

impl View for CapturedFrame {
    type V = FrameModel;

    open spec fn view(&self) -> FrameModel {
        FrameModel { ts: self.ts, data: self.data@ }
    }
}

/// A DNS message and the addresses it went from and to.
pub struct SentMessage {
    pub pkt: DnsPacket,
    pub src: String,
    pub dst: String,
}

/// What a [`SentMessage`] says.
pub struct SentModel {
    pub pkt: PacketModel,
    pub src: Seq<char>,
    pub dst: Seq<char>,
}

impl View for SentMessage {
    type V = SentModel;

    open spec fn view(&self) -> SentModel {
        SentModel { pkt: self.pkt@, src: self.src@, dst: self.dst@ }
    }
}

/// The DNS message in a UDP datagram from or to the port of DNS.
pub open spec fn message_over_udp(payload: Seq<u8>) -> Option<PacketModel> {
    match net::udp_datagram(payload) {
        Some((src, dst, data)) => if src == net::DNS_PORT || dst == net::DNS_PORT {
            dns::message(data)
        } else {
            None
        },
        None => None,
    }
}

/// The DNS message in a TCP segment from or to the port of DNS.
pub open spec fn message_over_tcp(payload: Seq<u8>) -> Option<PacketModel> {
    match net::tcp_segment(payload) {
        Some((src, dst, data)) => if (src == net::DNS_PORT || dst == net::DNS_PORT) && data.len()
            > 0 {
            dns::framed_message(data)
        } else {
            None
        },
        None => None,
    }
}

/// The DNS message in an IP payload of a protocol.
pub open spec fn message_over(protocol: u8, payload: Seq<u8>) -> Option<PacketModel> {
    if protocol == net::PROTO_UDP {
        message_over_udp(payload)
    } else if protocol == net::PROTO_TCP {
        message_over_tcp(payload)
    } else {
        None
    }
}

/// The DNS message in an Ethernet frame.
pub open spec fn message_in(frame: Seq<u8>) -> Option<SentModel> {
    match net::ip_in_frame(frame) {
        Some((ip, payload)) => match message_over(ip.protocol, payload) {
            Some(pkt) => Some(
                SentModel { pkt, src: address::dotted(ip.src), dst: address::dotted(ip.dst) },
            ),
            None => None,
        },
        None => None,
    }
}

fn parse_payload(protocol: u8, payload: &[u8]) -> (res: Option<DnsPacket>)
    ensures
        seqs::view_of_option(res) == message_over(protocol, payload@),
{
    if protocol == net::PROTO_UDP {
        match net::extract_udp(payload) {
            Some((src_port, dst_port, data)) => {
                if net::is_dns_port(src_port, dst_port) {
                    dns::parse_dns(data)
                } else {
                    None
                }
            },
            None => None,
        }
    } else if protocol == net::PROTO_TCP {
        match net::extract_tcp(payload) {
            Some(segment) => {
                if net::is_dns_port(segment.src_port, segment.dst_port) && segment.payload.len()
                    > 0 {
                    dns::parse_dns_tcp(segment.payload)
                } else {
                    None
                }
            },
            None => None,
        }
    } else {
        None
    }
}

/// Takes the DNS message out of an Ethernet frame.
pub fn extract_message(frame: &[u8]) -> (res: Option<SentMessage>)
    ensures
        seqs::view_of_option(res) == message_in(frame@),
{
    match net::extract_ip(frame) {
        Some((ip, payload)) => match parse_payload(ip.protocol, payload) {
            Some(pkt) => Some(SentMessage { pkt, src: ip.src_str(), dst: ip.dst_str() }),
            None => None,
        },
        None => None,
    }
}

/// Events with a time, each with its severity.
pub open spec fn timed(events: Seq<EventModel>, ts: Timestamp) -> Seq<TimedModel> {
    events.map_values(|ev: EventModel| ev.timed(ts))
}

/// Adds events that happened at `ts`, each with its severity.
pub fn push_events(new_events: Vec<DnsEvent>, ts: Timestamp, out: &mut Vec<TimedEvent>)
    ensures
        seqs::views(final(out)@) == seqs::views(old(out)@) + timed(seqs::views(new_events@), ts),
{
    let ghost before = seqs::views(out@);
    let ghost all = seqs::views(new_events@);
    let ghost items = new_events@;
    assert(before + timed(all.take(0), ts) =~= before);
    for ev in it: new_events
        invariant
            it.seq() == items,
            all == seqs::views(items),
            seqs::views(out@) == before + timed(all.take(it.index() as int), ts),
    {
        let ghost i = it.index() as int;
        let severity: Severity = event::classify_event(&ev);
        let te = TimedEvent { ts, event: ev, severity };
        proof {
            assert(ev == items[i]);
            seqs::lemma_views_push(out@, te);
            assert(timed(all.take(i + 1), ts) =~= timed(all.take(i), ts).push(te@));
            assert((before + timed(all.take(i), ts)).push(te@) =~= before + timed(
                all.take(i + 1),
                ts,
            ));
        }
        out.push(te);
    }
    assert(all.take(all.len() as int) =~= all);
}

/// How far the analysis of a capture has come.
pub struct CaptureModel {
    /// What is remembered of the messages so far.
    pub analyzer: AnalyzerModel,
    /// The events so far.
    pub events: Seq<TimedModel>,
    /// The number of DNS messages so far.
    pub dns_packets: nat,
}

impl CaptureModel {
    /// Nothing analyzed yet.
    pub open spec fn empty() -> CaptureModel {
        CaptureModel { analyzer: AnalyzerModel::empty(), events: Seq::empty(), dns_packets: 0 }
    }

    /// One frame further; a frame without a DNS message changes nothing.
    pub open spec fn after_frame(self, frame: FrameModel) -> CaptureModel {
        match message_in(frame.data) {
            Some(sent) => CaptureModel {
                analyzer: self.analyzer.after(sent.pkt, sent.src, sent.dst, frame.ts),
                events: self.events + timed(
                    self.analyzer.events(sent.pkt, sent.src, sent.dst, frame.ts),
                    frame.ts,
                ),
                dns_packets: self.dns_packets + 1,
            },
            None => self,
        }
    }
}

/// The analysis after some frames, in their order.
pub open spec fn after_frames(frames: Seq<FrameModel>) -> CaptureModel
    decreases frames.len(),
{
    if frames.len() == 0 {
        CaptureModel::empty()
    } else {
        after_frames(frames.drop_last()).after_frame(frames.last())
    }
}

/// The time of the last frame; zero for a capture without frames.
pub open spec fn last_time(frames: Seq<FrameModel>) -> Timestamp {
    if frames.len() > 0 {
        frames.last().ts
    } else {
        Timestamp { sec: 0, usec: 0 }
    }
}

/// The time of the first frame; zero for a capture without frames.
pub open spec fn first_time(frames: Seq<FrameModel>) -> Timestamp {
    if frames.len() > 0 {
        frames.first().ts
    } else {
        Timestamp { sec: 0, usec: 0 }
    }
}

/// All events of a capture: those of its messages, then the queries that have
/// waited too long when it ends.
pub open spec fn events_of(frames: Seq<FrameModel>) -> Seq<TimedModel> {
    let done = after_frames(frames);
    done.events + timed(done.analyzer.timeouts(last_time(frames)), last_time(frames))
}

/// Whether an event is a response with the given code.
pub open spec fn is_response_with(event: EventModel, code: Seq<char>) -> bool {
    event is ResponseReceived && event->ResponseReceived_rcode == code
}

/// Whether an event is an anomaly.
pub open spec fn is_anomaly(te: TimedModel) -> bool {
    te.severity == Severity::Warning || te.severity == Severity::Critical
}

/// The counts over events, and the numbers of clients and of names.
pub open spec fn summary_of(events: Seq<TimedModel>, clients: nat, names: nat) -> SummaryModel {
    SummaryModel {
        total_queries: events.filter(|te: TimedModel| te.event is QuerySent).len(),
        total_responses: events.filter(|te: TimedModel| te.event is ResponseReceived).len(),
        nxdomain_count: events.filter(
            |te: TimedModel| is_response_with(te.event, "NXDOMAIN"@),
        ).len(),
        servfail_count: events.filter(
            |te: TimedModel| is_response_with(te.event, "SERVFAIL"@),
        ).len(),
        timeout_count: events.filter(|te: TimedModel| te.event is QueryTimeout).len(),
        anomalies: events.filter(|te: TimedModel| is_anomaly(te)).len(),
        unique_clients: clients,
        unique_names: names,
    }
}

/// Counts over events.
pub fn summarize(events: &Vec<TimedEvent>, unique_clients: usize, unique_names: usize) -> (res:
    ReportSummary)
    ensures
        res@ == summary_of(
            seqs::views(events@),
            unique_clients as nat,
            unique_names as nat,
        ),
{
    let ghost all = seqs::views(events@);
    let ghost queries = |te: TimedModel| te.event is QuerySent;
    let ghost responses = |te: TimedModel| te.event is ResponseReceived;
    let ghost nxdomains = |te: TimedModel| is_response_with(te.event, "NXDOMAIN"@);
    let ghost servfails = |te: TimedModel| is_response_with(te.event, "SERVFAIL"@);
    let ghost timeouts = |te: TimedModel| te.event is QueryTimeout;
    let ghost anomalous = |te: TimedModel| is_anomaly(te);
    let mut res = ReportSummary {
        total_queries: 0,
        total_responses: 0,
        nxdomain_count: 0,
        servfail_count: 0,
        timeout_count: 0,
        anomalies: 0,
        unique_clients,
        unique_names,
    };
    let mut i: usize = 0;
    proof {
        reveal(Seq::filter);
    }
    while i < events.len()
        invariant
            i <= events.len(),
            all == seqs::views(events@),
            queries == |te: TimedModel| te.event is QuerySent,
            responses == |te: TimedModel| te.event is ResponseReceived,
            nxdomains == |te: TimedModel| is_response_with(te.event, "NXDOMAIN"@),
            servfails == |te: TimedModel| is_response_with(te.event, "SERVFAIL"@),
            timeouts == |te: TimedModel| te.event is QueryTimeout,
            anomalous == |te: TimedModel| is_anomaly(te),
            res.total_queries <= i,
            res.total_responses <= i,
            res.nxdomain_count <= i,
            res.servfail_count <= i,
            res.timeout_count <= i,
            res.anomalies <= i,
            res.total_queries == all.take(i as int).filter(queries).len(),
            res.total_responses == all.take(i as int).filter(responses).len(),
            res.nxdomain_count == all.take(i as int).filter(nxdomains).len(),
            res.servfail_count == all.take(i as int).filter(servfails).len(),
            res.timeout_count == all.take(i as int).filter(timeouts).len(),
            res.anomalies == all.take(i as int).filter(anomalous).len(),
            res.unique_clients == unique_clients,
            res.unique_names == unique_names,
        decreases events.len() - i,
    {
        let te: &TimedEvent = &events[i];
        proof {
            let head = all.take(i as int);
            assert(all.take(i + 1) =~= head.push(te@));
            seqs::lemma_filter_push(head, te@, queries);
            seqs::lemma_filter_push(head, te@, responses);
            seqs::lemma_filter_push(head, te@, nxdomains);
            seqs::lemma_filter_push(head, te@, servfails);
            seqs::lemma_filter_push(head, te@, timeouts);
            seqs::lemma_filter_push(head, te@, anomalous);
        }
        match &te.event {
            DnsEvent::QuerySent { .. } => {
                res.total_queries = res.total_queries + 1;
            },
            DnsEvent::ResponseReceived { rcode, .. } => {
                res.total_responses = res.total_responses + 1;
                if text::same_text(rcode.as_str(), "NXDOMAIN") {
                    res.nxdomain_count = res.nxdomain_count + 1;
                }
                if text::same_text(rcode.as_str(), "SERVFAIL") {
                    res.servfail_count = res.servfail_count + 1;
                }
            },
            DnsEvent::QueryTimeout { .. } => {
                res.timeout_count = res.timeout_count + 1;
            },
            _ => {},
        }
        match te.severity {
            Severity::Warning | Severity::Critical => {
                res.anomalies = res.anomalies + 1;
            },
            Severity::Info => {},
        }
        i = i + 1;
    }
    assert(all.take(i as int) =~= all);
    res
}

/// The report on a capture.
#[derive(Debug, Clone)]
pub struct FullReport {
    pub total_packets: usize,
    pub dns_packets: usize,
    /// The time from the first frame to the last, in microseconds.
    pub duration_us: i64,
    pub events: Vec<TimedEvent>,
    pub summary: ReportSummary,
    pub root_cause: RootCauseReport,
}

/// What a [`FullReport`] says.
pub struct FullReportModel {
    pub total_packets: nat,
    pub dns_packets: nat,
    pub duration_us: int,
    pub events: Seq<TimedModel>,
    pub summary: SummaryModel,
    pub root_cause: RootCauseModel,
}

impl View for FullReport {
    type V = FullReportModel;

    open spec fn view(&self) -> FullReportModel {
        FullReportModel {
            total_packets: self.total_packets as nat,
            dns_packets: self.dns_packets as nat,
            duration_us: self.duration_us as int,
            events: seqs::views(self.events@),
            summary: self.summary@,
            root_cause: self.root_cause@,
        }
    }
}

/// The report on the frames of a capture.
pub open spec fn report_of(frames: Seq<FrameModel>) -> FullReportModel {
    let done = after_frames(frames);
    FullReportModel {
        total_packets: frames.len(),
        dns_packets: done.dns_packets,
        duration_us: last_time(frames).at() - first_time(frames).at(),
        events: events_of(frames),
        summary: summary_of(
            events_of(frames),
            done.analyzer.clients.len(),
            done.analyzer.names.len(),
        ),
        root_cause: root_cause::report_on(events_of(frames)),
    }
}

/// Analyzes the frames of a capture.
pub fn analyze_frames(frames: &Vec<CapturedFrame>) -> (res: FullReport)
    ensures
        res@ == report_of(seqs::views(frames@)),
{
    let ghost all = seqs::views(frames@);
    let mut analyzer = Analyzer::new();
    let mut events: Vec<TimedEvent> = Vec::new();
    let mut dns_packets: usize = 0;
    let mut i: usize = 0;
    assert(seqs::views(events@) =~= Seq::empty());
    while i < frames.len()
        invariant
            i <= frames.len(),
            all == seqs::views(frames@),
            analyzer.wf(),
            dns_packets <= i,
            analyzer@ == after_frames(all.take(i as int)).analyzer,
            seqs::views(events@) == after_frames(all.take(i as int)).events,
            dns_packets == after_frames(all.take(i as int)).dns_packets,
        decreases frames.len() - i,
    {
        let frame: &CapturedFrame = &frames[i];
        proof {
            assert(all.take(i + 1).drop_last() =~= all.take(i as int));
            assert(all.take(i + 1).last() == frame@);
        }
        match extract_message(frame.data.as_slice()) {
            Some(sent) => {
                dns_packets = dns_packets + 1;
                let new_events: Vec<DnsEvent> = analyzer.process(
                    &sent.pkt,
                    sent.src.as_str(),
                    sent.dst.as_str(),
                    frame.ts,
                );
                push_events(new_events, frame.ts, &mut events);
            },
            None => {},
        }
        i = i + 1;
    }
    assert(all.take(i as int) =~= all);
    let zero = Timestamp { sec: 0, usec: 0 };
    let first_ts: Timestamp = if frames.len() > 0 {
        frames[0].ts
    } else {
        zero
    };
    let last_ts: Timestamp = if frames.len() > 0 {
        frames[frames.len() - 1].ts
    } else {
        zero
    };
    let late: Vec<DnsEvent> = analyzer.finalize(last_ts);
    push_events(late, last_ts, &mut events);
    let root_cause: RootCauseReport = root_cause::correlate(events.as_slice());
    let summary: ReportSummary = summarize(
        &events,
        analyzer.unique_clients(),
        analyzer.unique_names(),
    );
    FullReport {
        total_packets: frames.len(),
        dns_packets,
        duration_us: last_ts.micros() - first_ts.micros(),
        events,
        summary,
        root_cause,
    }
}

} // verus!
