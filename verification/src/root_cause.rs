//! Correlation of anomalies into causal chains, and the root cause.

use vstd::hash_map::StringHashMap;
use vstd::prelude::*;

use crate::domain;
use crate::event::{DnsEvent, EventModel, TimedEvent, TimedModel, Timestamp};
use crate::seqs;
use crate::text;

verus! {

/// So many queries without a response point to an unreachable server.
pub const UNREACHABLE_THRESHOLD: usize = 3;

/// Of the queries to an unreachable server, so many are listed one by one.
pub const UNREACHABLE_NOTES: usize = 3;

/// A cause that anomalies point to.
#[derive(Debug, Clone, Copy, PartialEq, Eq, Structural)]
pub enum RootCauseKind {
    /// Data exfiltration or command and control over DNS.
    DnsTunneling,
    /// Malware that generates domain names.
    DgaActivity,
    /// Reconnaissance of subdomains.
    SubdomainProbing,
    /// A rogue resolver or spoofed responses.
    RogueResolver,
    /// A DNS server that does not respond.
    ServerUnreachable,
    /// Hosting that keeps changing its addresses.
    FastFlux,
    /// Many repeated queries.
    NetworkInstability,
    /// No anomaly.
    Clean,
}

impl RootCauseKind {
    /// The name of the cause.
    pub open spec fn title(self) -> Seq<char> {
        match self {
            RootCauseKind::DnsTunneling => "DNS Tunneling"@,
            RootCauseKind::DgaActivity => "DGA Activity"@,
            RootCauseKind::SubdomainProbing => "Subdomain Probing"@,
            RootCauseKind::RogueResolver => "Rogue Resolver"@,
            RootCauseKind::ServerUnreachable => "Server Unreachable"@,
            RootCauseKind::FastFlux => "Fast-Flux Infrastructure"@,
            RootCauseKind::NetworkInstability => "Network Instability"@,
            RootCauseKind::Clean => "Clean"@,
        }
    }

    /// What the cause means.
    pub open spec fn meaning(self) -> Seq<char> {
        match self {
            RootCauseKind::DnsTunneling => {
                "Detected DNS queries with unusually long labels or suspicious record types \
                (NULL/TXT). This pattern is consistent with DNS tunneling used for data \
                exfiltration or C2 communication."@
            },
            RootCauseKind::DgaActivity => {
                "High volume of NXDOMAIN responses in a short window indicates Domain \
                Generation Algorithm (DGA) activity. This is a common malware technique to \
                locate C2 servers."@
            },
            RootCauseKind::SubdomainProbing => {
                "Slow but persistent NXDOMAIN stream targeting subdomains of a single \
                domain. Consistent with subdomain enumeration or reconnaissance."@
            },
            RootCauseKind::RogueResolver => {
                "Duplicate responses to the same transaction ID from different sources, or \
                unsolicited responses. Indicates a rogue resolver or DNS spoofing attempt."@
            },
            RootCauseKind::ServerUnreachable => {
                "Multiple queries without any response. DNS server may be down, filtered, \
                or misconfigured."@
            },
            RootCauseKind::FastFlux => {
                "Significant TTL variation observed for the same domain name across \
                multiple responses. Consistent with fast-flux infrastructure used to \
                obscure malicious hosting."@
            },
            RootCauseKind::NetworkInstability => {
                "High retransmission rate observed. Queries are being repeated multiple \
                times without receiving responses, indicating packet loss or network \
                congestion."@
            },
            RootCauseKind::Clean => {
                "No anomalies detected. Traffic appears consistent with normal DNS \
                operation."@
            },
        }
    }

    /// The cause with a name; that of normal traffic for any other name.
    pub open spec fn with_title(s: Seq<char>) -> RootCauseKind {
        if s == RootCauseKind::DnsTunneling.title() {
            RootCauseKind::DnsTunneling
        } else if s == RootCauseKind::DgaActivity.title() {
            RootCauseKind::DgaActivity
        } else if s == RootCauseKind::SubdomainProbing.title() {
            RootCauseKind::SubdomainProbing
        } else if s == RootCauseKind::RogueResolver.title() {
            RootCauseKind::RogueResolver
        } else if s == RootCauseKind::ServerUnreachable.title() {
            RootCauseKind::ServerUnreachable
        } else if s == RootCauseKind::FastFlux.title() {
            RootCauseKind::FastFlux
        } else if s == RootCauseKind::NetworkInstability.title() {
            RootCauseKind::NetworkInstability
        } else {
            RootCauseKind::Clean
        }
    }

    /// The name of the cause.
    pub fn as_str(&self) -> (res: &'static str)
        ensures
            res@ == self.title(),
    {
        match self {
            RootCauseKind::DnsTunneling => "DNS Tunneling",
            RootCauseKind::DgaActivity => "DGA Activity",
            RootCauseKind::SubdomainProbing => "Subdomain Probing",
            RootCauseKind::RogueResolver => "Rogue Resolver",
            RootCauseKind::ServerUnreachable => "Server Unreachable",
            RootCauseKind::FastFlux => "Fast-Flux Infrastructure",
            RootCauseKind::NetworkInstability => "Network Instability",
            RootCauseKind::Clean => "Clean",
        }
    }

    /// What the cause means.
    pub fn description(&self) -> (res: &'static str)
        ensures
            res@ == self.meaning(),
    {
        match self {
            RootCauseKind::DnsTunneling => {
                "Detected DNS queries with unusually long labels or suspicious record types \
                (NULL/TXT). This pattern is consistent with DNS tunneling used for data \
                exfiltration or C2 communication."
            },
            RootCauseKind::DgaActivity => {
                "High volume of NXDOMAIN responses in a short window indicates Domain \
                Generation Algorithm (DGA) activity. This is a common malware technique to \
                locate C2 servers."
            },
            RootCauseKind::SubdomainProbing => {
                "Slow but persistent NXDOMAIN stream targeting subdomains of a single \
                domain. Consistent with subdomain enumeration or reconnaissance."
            },
            RootCauseKind::RogueResolver => {
                "Duplicate responses to the same transaction ID from different sources, or \
                unsolicited responses. Indicates a rogue resolver or DNS spoofing attempt."
            },
            RootCauseKind::ServerUnreachable => {
                "Multiple queries without any response. DNS server may be down, filtered, \
                or misconfigured."
            },
            RootCauseKind::FastFlux => {
                "Significant TTL variation observed for the same domain name across \
                multiple responses. Consistent with fast-flux infrastructure used to \
                obscure malicious hosting."
            },
            RootCauseKind::NetworkInstability => {
                "High retransmission rate observed. Queries are being repeated multiple \
                times without receiving responses, indicating packet loss or network \
                congestion."
            },
            RootCauseKind::Clean => {
                "No anomalies detected. Traffic appears consistent with normal DNS \
                operation."
            },
        }
    }

    /// The cause with a name; that of normal traffic for any other name.
    pub fn from_str(s: &str) -> (res: Self)
        ensures
            res == RootCauseKind::with_title(s@),
    {
        if text::same_text(s, RootCauseKind::DnsTunneling.as_str()) {
            RootCauseKind::DnsTunneling
        } else if text::same_text(s, RootCauseKind::DgaActivity.as_str()) {
            RootCauseKind::DgaActivity
        } else if text::same_text(s, RootCauseKind::SubdomainProbing.as_str()) {
            RootCauseKind::SubdomainProbing
        } else if text::same_text(s, RootCauseKind::RogueResolver.as_str()) {
            RootCauseKind::RogueResolver
        } else if text::same_text(s, RootCauseKind::ServerUnreachable.as_str()) {
            RootCauseKind::ServerUnreachable
        } else if text::same_text(s, RootCauseKind::FastFlux.as_str()) {
            RootCauseKind::FastFlux
        } else if text::same_text(s, RootCauseKind::NetworkInstability.as_str()) {
            RootCauseKind::NetworkInstability
        } else {
            RootCauseKind::Clean
        }
    }
}

/// A cause with the evidence for it.
#[derive(Debug, Clone)]
pub struct CausalChain {
    pub kind: String,
    pub description: String,
    /// The times of the events that are evidence.
    pub evidence_ts: Vec<Timestamp>,
    /// What each piece of evidence says, in short.
    pub evidence_notes: Vec<String>,
    pub severity: String,
}

/// What a [`CausalChain`] says.
pub struct ChainModel {
    pub kind: Seq<char>,
    pub description: Seq<char>,
    pub evidence_ts: Seq<Timestamp>,
    pub evidence_notes: Seq<Seq<char>>,
    pub severity: Seq<char>,
}

impl View for CausalChain {
    type V = ChainModel;

    open spec fn view(&self) -> ChainModel {
        ChainModel {
            kind: self.kind@,
            description: self.description@,
            evidence_ts: self.evidence_ts@,
            evidence_notes: seqs::views(self.evidence_notes@),
            severity: self.severity@,
        }
    }
}

/// The causes that the events of a capture point to.
#[derive(Debug, Clone)]
pub struct RootCauseReport {
    /// The most severe cause.
    pub primary: String,
    pub primary_description: String,
    /// Every cause for which there is evidence.
    pub chains: Vec<CausalChain>,
    /// Whether one of them is critical.
    pub has_critical: bool,
}

/// What a [`RootCauseReport`] says.
pub struct RootCauseModel {
    pub primary: Seq<char>,
    pub primary_description: Seq<char>,
    pub chains: Seq<ChainModel>,
    pub has_critical: bool,
}

impl View for RootCauseReport {
    type V = RootCauseModel;

    open spec fn view(&self) -> RootCauseModel {
        RootCauseModel {
            primary: self.primary@,
            primary_description: self.primary_description@,
            chains: seqs::views(self.chains@),
            has_critical: self.has_critical,
        }
    }
}

impl RootCauseKind {
    /// Whether an event is evidence for the cause.
    pub open spec fn is_shown_by(self, event: EventModel) -> bool {
        match self {
            RootCauseKind::DnsTunneling => event is TunnelingIndicator,
            RootCauseKind::DgaActivity => event is NxdomainFlood,
            RootCauseKind::SubdomainProbing => event matches EventModel::SlowNxdomainProbe {
                names,
                ..
            } && domain::common_base(names) is Some,
            RootCauseKind::RogueResolver => event is DuplicateResponse
                || event is UnsolicitedResponse,
            RootCauseKind::ServerUnreachable => event is QueryTimeout,
            RootCauseKind::FastFlux => event is TtlAnomaly,
            RootCauseKind::NetworkInstability => event is QueryRetransmit,
            RootCauseKind::Clean => false,
        }
    }

    /// How many pieces of evidence the cause takes.
    pub open spec fn threshold(self) -> nat {
        if self == RootCauseKind::ServerUnreachable {
            UNREACHABLE_THRESHOLD as nat
        } else {
            1
        }
    }

    /// Whether the cause is a sign of an attack.
    pub open spec fn is_critical(self) -> bool {
        match self {
            RootCauseKind::DnsTunneling
            | RootCauseKind::DgaActivity
            | RootCauseKind::SubdomainProbing
            | RootCauseKind::RogueResolver => true,
            _ => false,
        }
    }

    /// The severity of the cause, in words.
    pub open spec fn severity(self) -> Seq<char> {
        if self.is_critical() {
            "Critical"@
        } else {
            "Warning"@
        }
    }
}

/// The reason for a sign of tunneling, in words.
pub open spec fn reason_words(reason: Seq<char>) -> Seq<char> {
    if reason == "long_label"@ {
        "long subdomain label"@
    } else if reason == "suspicious_qtype"@ {
        "suspicious record type"@
    } else {
        reason
    }
}

/// What an event says as a piece of evidence; nothing where it is none.
pub open spec fn note_of(event: EventModel) -> Seq<char> {
    match event {
        EventModel::TunnelingIndicator { name, qtype, reason, .. } => {
            name + " ("@ + qtype + ", "@ + reason_words(reason) + ")"@
        },
        EventModel::NxdomainFlood { client, count, window_sec, sample_names, .. } => {
            text::decimal(count) + " NXDOMAIN in "@ + text::decimal(window_sec) + "s from "@
                + client + " (e.g. "@ + (if sample_names.len() > 0 {
                sample_names[0]
            } else {
                "?"@
            }) + ")"@
        },
        EventModel::SlowNxdomainProbe { client, count, names, .. } => {
            match domain::common_base(names) {
                Some(base) => text::decimal(count) + " NXDOMAIN from "@ + client
                    + " targeting "@ + base,
                None => Seq::empty(),
            }
        },
        EventModel::DuplicateResponse { name, first_src, second_src, .. } => {
            "Duplicate response for "@ + name + " from "@ + first_src + " and "@ + second_src
        },
        EventModel::UnsolicitedResponse { src, name, rcode, .. } => {
            "Unsolicited "@ + rcode + " from "@ + src + " for "@ + name
        },
        EventModel::QueryTimeout { server, name, .. } => {
            "No response for "@ + name + " from server "@ + server
        },
        EventModel::TtlAnomaly { name, ttl_min, ttl_max, .. } => {
            name + ": TTL range "@ + text::decimal(ttl_min as nat) + "s–"@ + text::decimal(
                ttl_max as nat,
            ) + "s ("@ + text::decimal(
                ttl_max as nat / (if ttl_min > 1 {
                    ttl_min as nat
                } else {
                    1
                }),
            ) + "x variation)"@
        },
        EventModel::QueryRetransmit { client, name, count, .. } => {
            text::decimal(count) + " retransmits for "@ + name + " from "@ + client
        },
        _ => Seq::empty(),
    }
}

fn is_evidence(kind: RootCauseKind, event: &DnsEvent) -> (res: bool)
    ensures
        res == kind.is_shown_by(event@),
{
    match (kind, event) {
        (RootCauseKind::DnsTunneling, DnsEvent::TunnelingIndicator { .. }) => true,
        (RootCauseKind::DgaActivity, DnsEvent::NxdomainFlood { .. }) => true,
        (RootCauseKind::SubdomainProbing, DnsEvent::SlowNxdomainProbe { names, .. }) => {
            domain::common_base_domain(names).is_some()
        },
        (RootCauseKind::RogueResolver, DnsEvent::DuplicateResponse { .. }) => true,
        (RootCauseKind::RogueResolver, DnsEvent::UnsolicitedResponse { .. }) => true,
        (RootCauseKind::ServerUnreachable, DnsEvent::QueryTimeout { .. }) => true,
        (RootCauseKind::FastFlux, DnsEvent::TtlAnomaly { .. }) => true,
        (RootCauseKind::NetworkInstability, DnsEvent::QueryRetransmit { .. }) => true,
        _ => false,
    }
}

fn reason_text(reason: &str) -> (res: &str)
    ensures
        res@ == reason_words(reason@),
{
    if text::same_text(reason, "long_label") {
        "long subdomain label"
    } else if text::same_text(reason, "suspicious_qtype") {
        "suspicious record type"
    } else {
        reason
    }
}

fn note_text(event: &DnsEvent) -> (res: String)
    ensures
        res@ == note_of(event@),
{
    let mut res: String = String::new();
    match event {
        DnsEvent::TunnelingIndicator { name, qtype, reason, .. } => {
            res = name.clone();
            res.append(" (");
            res.append(qtype.as_str());
            res.append(", ");
            res.append(reason_text(reason.as_str()));
            res.append(")");
        },
        DnsEvent::NxdomainFlood { client, count, window_sec, sample_names, .. } => {
            res = text::decimal_text(*count as u64);
            res.append(" NXDOMAIN in ");
            res.append(text::decimal_text(*window_sec).as_str());
            res.append("s from ");
            res.append(client.as_str());
            res.append(" (e.g. ");
            if sample_names.len() > 0 {
                res.append(sample_names[0].as_str());
            } else {
                res.append("?");
            }
            res.append(")");
        },
        DnsEvent::SlowNxdomainProbe { client, count, names, .. } => {
            match domain::common_base_domain(names) {
                Some(base) => {
                    res = text::decimal_text(*count as u64);
                    res.append(" NXDOMAIN from ");
                    res.append(client.as_str());
                    res.append(" targeting ");
                    res.append(base.as_str());
                },
                None => {},
            }
        },
        DnsEvent::DuplicateResponse { name, first_src, second_src, .. } => {
            res = "Duplicate response for ".to_string();
            res.append(name.as_str());
            res.append(" from ");
            res.append(first_src.as_str());
            res.append(" and ");
            res.append(second_src.as_str());
        },
        DnsEvent::UnsolicitedResponse { src, name, rcode, .. } => {
            res = "Unsolicited ".to_string();
            res.append(rcode.as_str());
            res.append(" from ");
            res.append(src.as_str());
            res.append(" for ");
            res.append(name.as_str());
        },
        DnsEvent::QueryTimeout { server, name, .. } => {
            res = "No response for ".to_string();
            res.append(name.as_str());
            res.append(" from server ");
            res.append(server.as_str());
        },
        DnsEvent::TtlAnomaly { name, ttl_min, ttl_max, .. } => {
            let divisor: u32 = if *ttl_min > 1 {
                *ttl_min
            } else {
                1
            };
            let factor: u32 = *ttl_max / divisor;
            res = name.clone();
            res.append(": TTL range ");
            res.append(text::decimal_text(*ttl_min as u64).as_str());
            res.append("s–");
            res.append(text::decimal_text(*ttl_max as u64).as_str());
            res.append("s (");
            res.append(text::decimal_text(factor as u64).as_str());
            res.append("x variation)");
        },
        DnsEvent::QueryRetransmit { client, name, count, .. } => {
            res = text::decimal_text(*count as u64);
            res.append(" retransmits for ");
            res.append(name.as_str());
            res.append(" from ");
            res.append(client.as_str());
        },
        _ => {},
    }
    res
}

/// The events that are evidence for a cause.
pub open spec fn evidence(kind: RootCauseKind, events: Seq<TimedModel>) -> Seq<TimedModel> {
    events.filter(|te: TimedModel| kind.is_shown_by(te.event))
}

/// The times of events.
pub open spec fn times_of(events: Seq<TimedModel>) -> Seq<Timestamp> {
    events.map_values(|te: TimedModel| te.ts)
}

/// What events say as pieces of evidence.
pub open spec fn notes_of(events: Seq<TimedModel>) -> Seq<Seq<char>> {
    events.map_values(|te: TimedModel| note_of(te.event))
}

/// The servers that queries without a response were sent to.
pub open spec fn servers_of(events: Seq<TimedModel>) -> Seq<Seq<char>> {
    events.map_values(|te: TimedModel| te.event->QueryTimeout_server)
}

/// For each server that occurs more than once, how often it does.
pub open spec fn server_totals(servers: Seq<Seq<char>>) -> Seq<Seq<char>> {
    seqs::firsts(servers).filter(
        |server: Seq<char>| seqs::occurrences(servers, server) > 1,
    ).map_values(|server: Seq<char>| total_note(servers, server))
}

/// How often a server occurs, in words.
pub open spec fn total_note(servers: Seq<Seq<char>>, server: Seq<char>) -> Seq<char> {
    text::decimal(seqs::occurrences(servers, server)) + " total timeouts to "@ + server
}

/// The notes of a causal chain.
pub open spec fn chain_notes(kind: RootCauseKind, shown: Seq<TimedModel>) -> Seq<Seq<char>> {
    if kind == RootCauseKind::ServerUnreachable {
        seqs::at_most(notes_of(shown), UNREACHABLE_NOTES as int) + server_totals(
            servers_of(shown),
        )
    } else {
        notes_of(shown)
    }
}

/// The causal chain of a cause, where there is enough evidence for it.
pub open spec fn chain_of(kind: RootCauseKind, events: Seq<TimedModel>) -> Option<ChainModel> {
    let shown = evidence(kind, events);
    if shown.len() < kind.threshold() {
        None
    } else {
        Some(
            ChainModel {
                kind: kind.title(),
                description: kind.meaning(),
                evidence_ts: times_of(shown),
                evidence_notes: chain_notes(kind, shown),
                severity: kind.severity(),
            },
        )
    }
}

fn server_total_texts(servers: &Vec<String>) -> (res: Vec<String>)
    ensures
        seqs::views(res@) == server_totals(seqs::views(servers@)),
{
    let ghost all = seqs::views(servers@);
    let mut order: Vec<String> = Vec::new();
    let mut counts: StringHashMap<usize> = StringHashMap::new();
    let mut i: usize = 0;
    assert(all.take(0) =~= Seq::empty());
    assert(seqs::views(order@) =~= Seq::empty());
    while i < servers.len()
        invariant
            i <= servers.len(),
            all == seqs::views(servers@),
            seqs::views(order@) == seqs::firsts(all.take(i as int)),
            forall|s: Seq<char>| #[trigger]
                counts@.contains_key(s) <==> all.take(i as int).contains(s),
            forall|s: Seq<char>| #[trigger]
                counts@.contains_key(s) ==> counts@[s] == seqs::occurrences(
                    all.take(i as int),
                    s,
                ),
        decreases servers.len() - i,
    {
        let ghost head = all.take(i as int);
        let ghost known = counts@;
        let server: &String = &servers[i];
        proof {
            assert(all.take(i + 1) =~= head.push(server@));
            seqs::lemma_firsts_push(head, server@);
            seqs::lemma_views_push(order@, *server);
            assert(seqs::occurrences(head, server@) <= head.len()) by {
                seqs::lemma_occurrences_push(head, server@, server@);
            }
        }
        let count: usize = match counts.get(server.as_str()) {
            Some(count) => *count,
            None => {
                order.push(server.clone());
                0
            },
        };
        counts.insert(server.clone(), count + 1);
        proof {
            assert(counts@ == known.insert(server@, (count + 1) as usize));
            assert forall|s: Seq<char>| #[trigger] counts@.contains_key(s) <==> all.take(
                i + 1,
            ).contains(s) by {
                let next = head.push(server@);
                if head.contains(s) {
                    let k = choose|k: int| 0 <= k < head.len() && head[k] == s;
                    assert(next[k] == s);
                }
                assert(next[i as int] == server@);
                if next.contains(s) && s != server@ {
                    let k = choose|k: int| 0 <= k < next.len() && next[k] == s;
                    assert(head[k] == s);
                }
            }
            assert forall|s: Seq<char>| #[trigger]
                counts@.contains_key(s) implies counts@[s] == seqs::occurrences(
                all.take(i + 1),
                s,
            ) by {
                seqs::lemma_occurrences_push(head, server@, s);
                if !head.contains(server@) {
                    seqs::lemma_occurrences_absent(head, server@);
                }
            }
        }
        i = i + 1;
    }
    assert(all.take(i as int) =~= all);
    let ghost names = seqs::views(order@);
    let ghost keep = |server: Seq<char>| seqs::occurrences(all, server) > 1;
    let ghost note = |server: Seq<char>| total_note(all, server);
    let mut res: Vec<String> = Vec::new();
    let mut k: usize = 0;
    assert(names.take(0).filter(keep).map_values(note) =~= Seq::empty()) by {
        reveal(Seq::filter);
    }
    assert forall|j: int| 0 <= j < names.len() implies all.contains(#[trigger] names[j]) by {
        seqs::lemma_firsts_contained(all, j);
    }
    while k < order.len()
        invariant
            k <= order.len(),
            names == seqs::views(order@),
            forall|j: int| 0 <= j < names.len() ==> all.contains(#[trigger] names[j]),
            keep == |server: Seq<char>| seqs::occurrences(all, server) > 1,
            note == |server: Seq<char>| total_note(all, server),
            forall|s: Seq<char>| #[trigger] counts@.contains_key(s) <==> all.contains(s),
            forall|s: Seq<char>| #[trigger]
                counts@.contains_key(s) ==> counts@[s] == seqs::occurrences(all, s),
            seqs::views(res@) == names.take(k as int).filter(keep).map_values(note),
        decreases order.len() - k,
    {
        let ghost head = names.take(k as int);
        let server: &String = &order[k];
        assert(names[k as int] == server@);
        assert(counts@.contains_key(server@));
        proof {
            assert(names.take(k + 1) =~= head.push(server@));
            seqs::lemma_filter_push(head, server@, keep);
            assert(head.filter(keep).push(server@).map_values(note) =~= head.filter(
                keep,
            ).map_values(note).push(note(server@)));
        }
        let count: usize = match counts.get(server.as_str()) {
            Some(count) => *count,
            None => 0,
        };
        if count > 1 {
            let mut line: String = text::decimal_text(count as u64);
            line.append(" total timeouts to ");
            line.append(server.as_str());
            proof {
                seqs::lemma_views_push(res@, line);
            }
            res.push(line);
        }
        k = k + 1;
    }
    assert(names.take(k as int) =~= names);
    res
}

fn detect(kind: RootCauseKind, events: &[TimedEvent]) -> (res: Option<CausalChain>)
    ensures
        seqs::view_of_option(res) == chain_of(kind, seqs::views(events@)),
{
    let ghost all = seqs::views(events@);
    let ghost keep = |te: TimedModel| kind.is_shown_by(te.event);
    let mut evidence_ts: Vec<Timestamp> = Vec::new();
    let mut evidence_notes: Vec<String> = Vec::new();
    let mut servers: Vec<String> = Vec::new();
    let mut i: usize = 0;
    proof {
        reveal(Seq::filter);
        assert(all.take(0).filter(keep) =~= Seq::empty());
        assert(evidence_ts@ =~= times_of(Seq::empty()));
        assert(seqs::views(evidence_notes@) =~= notes_of(Seq::empty()));
        assert(seqs::views(servers@) =~= servers_of(Seq::empty()));
    }
    while i < events.len()
        invariant
            i <= events.len(),
            all == seqs::views(events@),
            keep == |te: TimedModel| kind.is_shown_by(te.event),
            evidence_ts@ == times_of(all.take(i as int).filter(keep)),
            seqs::views(evidence_notes@) == notes_of(all.take(i as int).filter(keep)),
            kind == RootCauseKind::ServerUnreachable ==> seqs::views(servers@) == servers_of(
                all.take(i as int).filter(keep),
            ),
        decreases events.len() - i,
    {
        let te: &TimedEvent = &events[i];
        let ghost head = all.take(i as int);
        proof {
            let shown = head.filter(keep);
            assert(all.take(i + 1) =~= head.push(te@));
            seqs::lemma_filter_push(head, te@, keep);
            assert(times_of(shown.push(te@)) =~= times_of(shown).push(te.ts));
            assert(notes_of(shown.push(te@)) =~= notes_of(shown).push(note_of(te.event@)));
            assert(servers_of(shown.push(te@)) =~= servers_of(shown).push(
                te.event@->QueryTimeout_server,
            ));
        }
        if is_evidence(kind, &te.event) {
            evidence_ts.push(te.ts);
            let note: String = note_text(&te.event);
            proof {
                seqs::lemma_views_push(evidence_notes@, note);
            }
            evidence_notes.push(note);
            match &te.event {
                DnsEvent::QueryTimeout { server, .. } => {
                    proof {
                        seqs::lemma_views_push(servers@, *server);
                    }
                    servers.push(server.clone());
                },
                _ => {},
            }
        }
        i = i + 1;
    }
    assert(all.take(i as int) =~= all);
    let threshold: usize = match kind {
        RootCauseKind::ServerUnreachable => UNREACHABLE_THRESHOLD,
        _ => 1,
    };
    if evidence_ts.len() < threshold {
        return None;
    }
    if kind == RootCauseKind::ServerUnreachable {
        let ghost notes = seqs::views(evidence_notes@);
        evidence_notes.truncate(UNREACHABLE_NOTES);
        assert(seqs::views(evidence_notes@) =~= seqs::at_most(notes, UNREACHABLE_NOTES as int));
        let mut totals: Vec<String> = server_total_texts(&servers);
        proof {
            seqs::lemma_views_append(evidence_notes@, totals@);
        }
        evidence_notes.append(&mut totals);
    }
    let severity: &str = match kind {
        RootCauseKind::DnsTunneling
        | RootCauseKind::DgaActivity
        | RootCauseKind::SubdomainProbing
        | RootCauseKind::RogueResolver => "Critical",
        _ => "Warning",
    };
    Some(
        CausalChain {
            kind: kind.as_str().to_string(),
            description: kind.description().to_string(),
            evidence_ts,
            evidence_notes,
            severity: severity.to_string(),
        },
    )
}

/// No chain, or one.
pub open spec fn chain_if_any(chain: Option<ChainModel>) -> Seq<ChainModel> {
    match chain {
        Some(chain) => seq![chain],
        None => Seq::empty(),
    }
}

/// The causal chains that events form, the more severe causes first.
pub open spec fn chains_of(events: Seq<TimedModel>) -> Seq<ChainModel> {
    chain_if_any(chain_of(RootCauseKind::DnsTunneling, events))
        + chain_if_any(chain_of(RootCauseKind::DgaActivity, events))
        + chain_if_any(chain_of(RootCauseKind::SubdomainProbing, events))
        + chain_if_any(chain_of(RootCauseKind::RogueResolver, events))
        + chain_if_any(chain_of(RootCauseKind::ServerUnreachable, events))
        + chain_if_any(chain_of(RootCauseKind::FastFlux, events))
        + chain_if_any(chain_of(RootCauseKind::NetworkInstability, events))
}

/// The chains of a severity.
pub open spec fn of_severity(chains: Seq<ChainModel>, severity: Seq<char>) -> Seq<ChainModel> {
    chains.filter(|chain: ChainModel| chain.severity == severity)
}

/// The cause of the first critical chain; where there is none, of the first
/// warning; where there is none either, that of normal traffic.
pub open spec fn primary_kind(chains: Seq<ChainModel>) -> RootCauseKind {
    if of_severity(chains, "Critical"@).len() > 0 {
        RootCauseKind::with_title(of_severity(chains, "Critical"@)[0].kind)
    } else if of_severity(chains, "Warning"@).len() > 0 {
        RootCauseKind::with_title(of_severity(chains, "Warning"@)[0].kind)
    } else {
        RootCauseKind::Clean
    }
}

/// The root cause report on events.
pub open spec fn report_on(events: Seq<TimedModel>) -> RootCauseModel {
    let chains = chains_of(events);
    RootCauseModel {
        primary: primary_kind(chains).title(),
        primary_description: primary_kind(chains).meaning(),
        chains,
        has_critical: of_severity(chains, "Critical"@).len() > 0,
    }
}

fn push_chain(chains: &mut Vec<CausalChain>, chain: Option<CausalChain>)
    ensures
        seqs::views(final(chains)@) == seqs::views(old(chains)@) + chain_if_any(
            seqs::view_of_option(chain),
        ),
{
    let ghost before = seqs::views(chains@);
    match chain {
        Some(chain) => {
            proof {
                seqs::lemma_views_push(chains@, chain);
                assert(before.push(chain@) =~= before + seq![chain@]);
            }
            chains.push(chain);
        },
        None => {
            assert(before + Seq::empty() =~= before);
        },
    }
}

fn first_of_severity(chains: &Vec<CausalChain>, severity: &str) -> (res: Option<RootCauseKind>)
    ensures
        ({
            let found = of_severity(seqs::views(chains@), severity@);
            res == if found.len() > 0 {
                Some(RootCauseKind::with_title(found[0].kind))
            } else {
                None
            }
        }),
{
    let ghost all = seqs::views(chains@);
    let ghost keep = |chain: ChainModel| chain.severity == severity@;
    let mut i: usize = 0;
    proof {
        reveal(Seq::filter);
    }
    while i < chains.len()
        invariant
            i <= chains.len(),
            all == seqs::views(chains@),
            keep == |chain: ChainModel| chain.severity == severity@,
            all.take(i as int).filter(keep).len() == 0,
        decreases chains.len() - i,
    {
        let ghost head = all.take(i as int);
        proof {
            seqs::lemma_filter_push(head, all[i as int], keep);
            assert(all.take(i + 1) =~= head.push(all[i as int]));
        }
        if text::same_text(chains[i].severity.as_str(), severity) {
            proof {
                let tail = all.skip(i + 1);
                assert(all =~= all.take(i + 1) + tail);
                Seq::filter_distributes_over_add(all.take(i + 1), tail, keep);
                assert(all.filter(keep)[0] == all[i as int]);
            }
            return Some(RootCauseKind::from_str(chains[i].kind.as_str()));
        }
        i = i + 1;
    }
    assert(all.take(i as int) =~= all);
    None
}

/// Correlates events into causal chains and names the root cause.
pub fn correlate(events: &[TimedEvent]) -> (res: RootCauseReport)
    ensures
        res@ == report_on(seqs::views(events@)),
{
    let mut chains: Vec<CausalChain> = Vec::new();
    assert(seqs::views(chains@) =~= Seq::empty());
    push_chain(&mut chains, detect(RootCauseKind::DnsTunneling, events));
    push_chain(&mut chains, detect(RootCauseKind::DgaActivity, events));
    push_chain(&mut chains, detect(RootCauseKind::SubdomainProbing, events));
    push_chain(&mut chains, detect(RootCauseKind::RogueResolver, events));
    push_chain(&mut chains, detect(RootCauseKind::ServerUnreachable, events));
    push_chain(&mut chains, detect(RootCauseKind::FastFlux, events));
    push_chain(&mut chains, detect(RootCauseKind::NetworkInstability, events));
    assert(seqs::views(chains@) =~= chains_of(seqs::views(events@)));
    let critical: Option<RootCauseKind> = first_of_severity(&chains, "Critical");
    let has_critical: bool = critical.is_some();
    let primary: RootCauseKind = match critical {
        Some(kind) => kind,
        None => match first_of_severity(&chains, "Warning") {
            Some(kind) => kind,
            None => RootCauseKind::Clean,
        },
    };
    RootCauseReport {
        primary: primary.as_str().to_string(),
        primary_description: primary.description().to_string(),
        chains,
        has_critical,
    }
}

} // verus!
