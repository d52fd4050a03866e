//! What the analysis reports: events, their severity, and counts over them.

use vstd::prelude::*;

use crate::seqs;

verus! {

/// The time of a captured packet.
#[derive(Debug, Clone, Copy, PartialEq, Eq, Structural)]
pub struct Timestamp {
    pub sec: u32,
    pub usec: u32,
}

impl Timestamp {
    /// The time in microseconds.
    pub open spec fn at(self) -> int {
        self.sec * 1_000_000 + self.usec
    }

    /// The time in microseconds.
    pub fn micros(self) -> (res: i64)
        ensures
            res == self.at(),
    {
        self.sec as i64 * 1_000_000 + self.usec as i64
    }
}

/// Something that the traffic shows.
#[derive(Debug, Clone)]
pub enum DnsEvent {
    /// A query was sent.
    QuerySent { txid: u16, client: String, server: String, name: String, qtype: String },
    /// The response to a query came; the latency is in microseconds.
    ResponseReceived {
        txid: u16,
        client: String,
        server: String,
        name: String,
        qtype: String,
        rcode: String,
        answer_count: usize,
        latency_us: i64,
    },
    /// A query got no response in time.
    QueryTimeout { txid: u16, client: String, server: String, name: String, qtype: String },
    /// A response came without a query (possible spoofing).
    UnsolicitedResponse { txid: u16, src: String, name: String, rcode: String },
    /// A response was cut short: the client must ask again over TCP.
    TruncatedResponse { txid: u16, client: String, server: String, name: String },
    /// Many NXDOMAIN responses in a short time (domain generation, scanning).
    NxdomainFlood {
        client: String,
        server: String,
        count: usize,
        window_sec: u64,
        sample_names: Vec<String>,
    },
    /// A slow stream of NXDOMAIN responses (subdomain reconnaissance).
    SlowNxdomainProbe { client: String, server: String, count: usize, names: Vec<String> },
    /// One query was sent again and again.
    QueryRetransmit { txid: u16, client: String, name: String, count: usize },
    /// A query looks like DNS tunneling.
    TunnelingIndicator { client: String, name: String, qtype: String, reason: String },
    /// The times to live of one name vary widely (fast-flux).
    TtlAnomaly { name: String, ttl_min: u32, ttl_max: u32, server: String },
    /// A transaction that had been answered was answered again, from another source.
    DuplicateResponse { txid: u16, name: String, first_src: String, second_src: String },
}

/// What a [`DnsEvent`] says.
pub enum EventModel {
    QuerySent {
        txid: u16,
        client: Seq<char>,
        server: Seq<char>,
        name: Seq<char>,
        qtype: Seq<char>,
    },
    ResponseReceived {
        txid: u16,
        client: Seq<char>,
        server: Seq<char>,
        name: Seq<char>,
        qtype: Seq<char>,
        rcode: Seq<char>,
        answer_count: nat,
        latency_us: int,
    },
    QueryTimeout {
        txid: u16,
        client: Seq<char>,
        server: Seq<char>,
        name: Seq<char>,
        qtype: Seq<char>,
    },
    UnsolicitedResponse { txid: u16, src: Seq<char>, name: Seq<char>, rcode: Seq<char> },
    TruncatedResponse { txid: u16, client: Seq<char>, server: Seq<char>, name: Seq<char> },
    NxdomainFlood {
        client: Seq<char>,
        server: Seq<char>,
        count: nat,
        window_sec: nat,
        sample_names: Seq<Seq<char>>,
    },
    SlowNxdomainProbe {
        client: Seq<char>,
        server: Seq<char>,
        count: nat,
        names: Seq<Seq<char>>,
    },
    QueryRetransmit { txid: u16, client: Seq<char>, name: Seq<char>, count: nat },
    TunnelingIndicator {
        client: Seq<char>,
        name: Seq<char>,
        qtype: Seq<char>,
        reason: Seq<char>,
    },
    TtlAnomaly { name: Seq<char>, ttl_min: u32, ttl_max: u32, server: Seq<char> },
    DuplicateResponse {
        txid: u16,
        name: Seq<char>,
        first_src: Seq<char>,
        second_src: Seq<char>,
    },
}

impl View for DnsEvent {
    type V = EventModel;

    open spec fn view(&self) -> EventModel {
        match *self {
            DnsEvent::QuerySent { txid, client, server, name, qtype } => EventModel::QuerySent {
                txid,
                client: client@,
                server: server@,
                name: name@,
                qtype: qtype@,
            },
            DnsEvent::ResponseReceived {
                txid,
                client,
                server,
                name,
                qtype,
                rcode,
                answer_count,
                latency_us,
            } => EventModel::ResponseReceived {
                txid,
                client: client@,
                server: server@,
                name: name@,
                qtype: qtype@,
                rcode: rcode@,
                answer_count: answer_count as nat,
                latency_us: latency_us as int,
            },
            DnsEvent::QueryTimeout { txid, client, server, name, qtype } => {
                EventModel::QueryTimeout {
                    txid,
                    client: client@,
                    server: server@,
                    name: name@,
                    qtype: qtype@,
                }
            },
            DnsEvent::UnsolicitedResponse { txid, src, name, rcode } => {
                EventModel::UnsolicitedResponse { txid, src: src@, name: name@, rcode: rcode@ }
            },
            DnsEvent::TruncatedResponse { txid, client, server, name } => {
                EventModel::TruncatedResponse {
                    txid,
                    client: client@,
                    server: server@,
                    name: name@,
                }
            },
            DnsEvent::NxdomainFlood { client, server, count, window_sec, sample_names } => {
                EventModel::NxdomainFlood {
                    client: client@,
                    server: server@,
                    count: count as nat,
                    window_sec: window_sec as nat,
                    sample_names: seqs::views(sample_names@),
                }
            },
            DnsEvent::SlowNxdomainProbe { client, server, count, names } => {
                EventModel::SlowNxdomainProbe {
                    client: client@,
                    server: server@,
                    count: count as nat,
                    names: seqs::views(names@),
                }
            },
            DnsEvent::QueryRetransmit { txid, client, name, count } => {
                EventModel::QueryRetransmit {
                    txid,
                    client: client@,
                    name: name@,
                    count: count as nat,
                }
            },
            DnsEvent::TunnelingIndicator { client, name, qtype, reason } => {
                EventModel::TunnelingIndicator {
                    client: client@,
                    name: name@,
                    qtype: qtype@,
                    reason: reason@,
                }
            },
            DnsEvent::TtlAnomaly { name, ttl_min, ttl_max, server } => EventModel::TtlAnomaly {
                name: name@,
                ttl_min,
                ttl_max,
                server: server@,
            },
            DnsEvent::DuplicateResponse { txid, name, first_src, second_src } => {
                EventModel::DuplicateResponse {
                    txid,
                    name: name@,
                    first_src: first_src@,
                    second_src: second_src@,
                }
            },
        }
    }
}

/// How much an event matters.
#[derive(Debug, Clone, Copy, PartialEq, Eq, Structural)]
pub enum Severity {
    Info,
    Warning,
    Critical,
}

/// An event with its time and its severity.
#[derive(Debug, Clone)]
pub struct TimedEvent {
    pub ts: Timestamp,
    pub event: DnsEvent,
    pub severity: Severity,
}

/// What a [`TimedEvent`] says.
pub struct TimedModel {
    pub ts: Timestamp,
    pub event: EventModel,
    pub severity: Severity,
}

impl View for TimedEvent {
    type V = TimedModel;

    open spec fn view(&self) -> TimedModel {
        TimedModel { ts: self.ts, event: self.event@, severity: self.severity }
    }
}

impl EventModel {
    /// The severity of an event: normal traffic, trouble, or a sign of an attack.
    pub open spec fn severity(self) -> Severity {
        match self {
            EventModel::QuerySent { .. } | EventModel::ResponseReceived { .. } => Severity::Info,
            EventModel::TruncatedResponse { .. }
            | EventModel::QueryRetransmit { .. }
            | EventModel::UnsolicitedResponse { .. }
            | EventModel::QueryTimeout { .. }
            | EventModel::TtlAnomaly { .. } => Severity::Warning,
            EventModel::NxdomainFlood { .. }
            | EventModel::SlowNxdomainProbe { .. }
            | EventModel::TunnelingIndicator { .. }
            | EventModel::DuplicateResponse { .. } => Severity::Critical,
        }
    }

    /// The event with its time and its severity.
    pub open spec fn timed(self, ts: Timestamp) -> TimedModel {
        TimedModel { ts, event: self, severity: self.severity() }
    }
}

/// The severity of an event.
pub fn classify_event(ev: &DnsEvent) -> (res: Severity)
    ensures
        res == ev@.severity(),
{
    match ev {
        DnsEvent::QuerySent { .. } | DnsEvent::ResponseReceived { .. } => Severity::Info,
        DnsEvent::TruncatedResponse { .. }
        | DnsEvent::QueryRetransmit { .. }
        | DnsEvent::UnsolicitedResponse { .. }
        | DnsEvent::QueryTimeout { .. }
        | DnsEvent::TtlAnomaly { .. } => Severity::Warning,
        DnsEvent::NxdomainFlood { .. }
        | DnsEvent::SlowNxdomainProbe { .. }
        | DnsEvent::TunnelingIndicator { .. }
        | DnsEvent::DuplicateResponse { .. } => Severity::Critical,
    }
}

/// Counts over the events of a capture.
#[derive(Debug, Clone, Copy, PartialEq, Eq, Structural)]
pub struct ReportSummary {
    pub total_queries: usize,
    pub total_responses: usize,
    pub nxdomain_count: usize,
    pub servfail_count: usize,
    pub timeout_count: usize,
    pub anomalies: usize,
    pub unique_clients: usize,
    pub unique_names: usize,
}

/// What a [`ReportSummary`] says.
pub struct SummaryModel {
    pub total_queries: nat,
    pub total_responses: nat,
    pub nxdomain_count: nat,
    pub servfail_count: nat,
    pub timeout_count: nat,
    pub anomalies: nat,
    pub unique_clients: nat,
    pub unique_names: nat,
}

impl View for ReportSummary {
    type V = SummaryModel;

    open spec fn view(&self) -> SummaryModel {
        SummaryModel {
            total_queries: self.total_queries as nat,
            total_responses: self.total_responses as nat,
            nxdomain_count: self.nxdomain_count as nat,
            servfail_count: self.servfail_count as nat,
            timeout_count: self.timeout_count as nat,
            anomalies: self.anomalies as nat,
            unique_clients: self.unique_clients as nat,
            unique_names: self.unique_names as nat,
        }
    }
}

} // verus!
