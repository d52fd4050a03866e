//! Laws of the root cause report, said of the events alone.

use vstd::prelude::*;

use crate::domain;
use crate::event::{EventModel, Severity, TimedModel};
use crate::laws::causes;
use crate::root_cause;
use crate::root_cause::{ChainModel, RootCauseKind};
use crate::seqs;
use crate::text;

verus! {

/// The severity of each kind of event.
pub proof fn law_severity_of_event(event: EventModel)
    ensures
        event is QuerySent ==> event.severity() == Severity::Info,
        event is ResponseReceived ==> event.severity() == Severity::Info,
        event is TruncatedResponse ==> event.severity() == Severity::Warning,
        event is QueryRetransmit ==> event.severity() == Severity::Warning,
        event is UnsolicitedResponse ==> event.severity() == Severity::Warning,
        event is QueryTimeout ==> event.severity() == Severity::Warning,
        event is TtlAnomaly ==> event.severity() == Severity::Warning,
        event is NxdomainFlood ==> event.severity() == Severity::Critical,
        event is SlowNxdomainProbe ==> event.severity() == Severity::Critical,
        event is TunnelingIndicator ==> event.severity() == Severity::Critical,
        event is DuplicateResponse ==> event.severity() == Severity::Critical,
{
}

/// The name of each cause.
pub proof fn law_title_of_cause()
    ensures
        RootCauseKind::DnsTunneling.title() == "DNS Tunneling"@,
        RootCauseKind::DgaActivity.title() == "DGA Activity"@,
        RootCauseKind::SubdomainProbing.title() == "Subdomain Probing"@,
        RootCauseKind::RogueResolver.title() == "Rogue Resolver"@,
        RootCauseKind::ServerUnreachable.title() == "Server Unreachable"@,
        RootCauseKind::FastFlux.title() == "Fast-Flux Infrastructure"@,
        RootCauseKind::NetworkInstability.title() == "Network Instability"@,
        RootCauseKind::Clean.title() == "Clean"@,
{
}

/// The cause with each name, and that of any other text.
pub proof fn law_cause_with_title(s: Seq<char>)
    ensures
        RootCauseKind::with_title("DNS Tunneling"@) == RootCauseKind::DnsTunneling,
        RootCauseKind::with_title("DGA Activity"@) == RootCauseKind::DgaActivity,
        RootCauseKind::with_title("Subdomain Probing"@) == RootCauseKind::SubdomainProbing,
        RootCauseKind::with_title("Rogue Resolver"@) == RootCauseKind::RogueResolver,
        RootCauseKind::with_title("Server Unreachable"@) == RootCauseKind::ServerUnreachable,
        RootCauseKind::with_title("Fast-Flux Infrastructure"@) == RootCauseKind::FastFlux,
        RootCauseKind::with_title("Network Instability"@) == RootCauseKind::NetworkInstability,
        s != "DNS Tunneling"@ && s != "DGA Activity"@ && s != "Subdomain Probing"@ && s
            != "Rogue Resolver"@ && s != "Server Unreachable"@ && s
            != "Fast-Flux Infrastructure"@ && s != "Network Instability"@
            ==> RootCauseKind::with_title(s) == RootCauseKind::Clean,
{
    causes::law_title_names_its_cause(RootCauseKind::DnsTunneling);
    causes::law_title_names_its_cause(RootCauseKind::DgaActivity);
    causes::law_title_names_its_cause(RootCauseKind::SubdomainProbing);
    causes::law_title_names_its_cause(RootCauseKind::RogueResolver);
    causes::law_title_names_its_cause(RootCauseKind::ServerUnreachable);
    causes::law_title_names_its_cause(RootCauseKind::FastFlux);
    causes::law_title_names_its_cause(RootCauseKind::NetworkInstability);
}

/// What each cause means.
pub proof fn law_meaning_of_cause()
    ensures
        RootCauseKind::DnsTunneling.meaning()
            == "Detected DNS queries with unusually long labels or suspicious record types \
            (NULL/TXT). This pattern is consistent with DNS tunneling used for data \
            exfiltration or C2 communication."@,
        RootCauseKind::DgaActivity.meaning()
            == "High volume of NXDOMAIN responses in a short window indicates Domain \
            Generation Algorithm (DGA) activity. This is a common malware technique to \
            locate C2 servers."@,
        RootCauseKind::SubdomainProbing.meaning()
            == "Slow but persistent NXDOMAIN stream targeting subdomains of a single \
            domain. Consistent with subdomain enumeration or reconnaissance."@,
        RootCauseKind::RogueResolver.meaning()
            == "Duplicate responses to the same transaction ID from different sources, or \
            unsolicited responses. Indicates a rogue resolver or DNS spoofing attempt."@,
        RootCauseKind::ServerUnreachable.meaning()
            == "Multiple queries without any response. DNS server may be down, filtered, \
            or misconfigured."@,
        RootCauseKind::FastFlux.meaning()
            == "Significant TTL variation observed for the same domain name across \
            multiple responses. Consistent with fast-flux infrastructure used to \
            obscure malicious hosting."@,
        RootCauseKind::NetworkInstability.meaning()
            == "High retransmission rate observed. Queries are being repeated multiple \
            times without receiving responses, indicating packet loss or network \
            congestion."@,
        RootCauseKind::Clean.meaning()
            == "No anomalies detected. Traffic appears consistent with normal DNS \
            operation."@,
{
}

/// Items without repetitions: each stands once, in the order in which they came first.
pub proof fn law_firsts_stand_once<T>(items: Seq<T>, item: T)
    ensures
        seqs::firsts(Seq::<T>::empty()) == Seq::<T>::empty(),
        items.contains(item) ==> seqs::firsts(items.push(item)) == seqs::firsts(items),
        !items.contains(item) ==> seqs::firsts(items.push(item)) == seqs::firsts(items).push(item),
{
    assert(items.push(item).drop_last() =~= items);
}

/// An item is counted where it occurs.
pub proof fn law_occurrences_are_counted<T>(items: Seq<T>, item: T, other: T)
    ensures
        seqs::occurrences(Seq::<T>::empty(), item) == 0,
        seqs::occurrences(items.push(item), item) == seqs::occurrences(items, item) + 1,
        other != item ==> seqs::occurrences(items.push(other), item) == seqs::occurrences(
            items,
            item,
        ),
{
    let keep = |x: T| x == item;
    reveal(Seq::filter);
    assert(items.push(item).drop_last() =~= items);
    assert(items.push(other).drop_last() =~= items);
    assert(Seq::<T>::empty().filter(keep).len() == 0);
}

/// What an event says as evidence.
pub open spec fn words_on(event: EventModel) -> Seq<char> {
    match event {
        EventModel::TunnelingIndicator { client, name, qtype, reason } => name + " ("@ + qtype
            + ", "@ + (if reason == "long_label"@ {
            "long subdomain label"@
        } else if reason == "suspicious_qtype"@ {
            "suspicious record type"@
        } else {
            reason
        }) + ")"@,
        EventModel::NxdomainFlood { client, server, count, window_sec, sample_names } => {
            text::decimal(count) + " NXDOMAIN in "@ + text::decimal(window_sec) + "s from "@
                + client + " (e.g. "@ + (if sample_names.len() == 0 {
                "?"@
            } else {
                sample_names[0]
            }) + ")"@
        },
        EventModel::SlowNxdomainProbe { client, server, count, names } => {
            if let Some(base) = domain::common_base(names) {
                text::decimal(count) + " NXDOMAIN from "@ + client + " targeting "@ + base
            } else {
                Seq::empty()
            }
        },
        EventModel::DuplicateResponse { txid, name, first_src, second_src } => {
            "Duplicate response for "@ + name + " from "@ + first_src + " and "@ + second_src
        },
        EventModel::UnsolicitedResponse { txid, src, name, rcode } => {
            "Unsolicited "@ + rcode + " from "@ + src + " for "@ + name
        },
        EventModel::QueryTimeout { txid, client, server, name, qtype } => {
            "No response for "@ + name + " from server "@ + server
        },
        EventModel::TtlAnomaly { name, ttl_min, ttl_max, server } => {
            let times = if ttl_min == 0 {
                ttl_max as nat
            } else {
                ttl_max as nat / ttl_min as nat
            };
            name + ": TTL range "@ + text::decimal(ttl_min as nat) + "s–"@ + text::decimal(
                ttl_max as nat,
            ) + "s ("@ + text::decimal(times) + "x variation)"@
        },
        EventModel::QueryRetransmit { txid, client, name, count } => {
            text::decimal(count) + " retransmits for "@ + name + " from "@ + client
        },
        EventModel::QuerySent { .. }
        | EventModel::ResponseReceived { .. }
        | EventModel::TruncatedResponse { .. } => Seq::empty(),
    }
}

proof fn lemma_words_on(event: EventModel)
    ensures
        root_cause::note_of(event) == words_on(event),
{
}

/// What each of some events says as evidence.
pub open spec fn words_on_all(shown: Seq<TimedModel>) -> Seq<Seq<char>> {
    Seq::new(shown.len(), |i: int| words_on(shown[i].event))
}

/// What a cause with some evidence is reported with, but for an unreachable server.
pub open spec fn finding(
    title: Seq<char>,
    meaning: Seq<char>,
    shown: Seq<TimedModel>,
    severity: Seq<char>,
) -> Seq<ChainModel> {
    if shown.len() == 0 {
        Seq::empty()
    } else {
        seq![
            ChainModel {
                kind: title,
                description: meaning,
                evidence_ts: Seq::new(shown.len(), |i: int| shown[i].ts),
                evidence_notes: words_on_all(shown),
                severity,
            },
        ]
    }
}

/// The servers of queries that timed out.
pub open spec fn timed_out_servers(shown: Seq<TimedModel>) -> Seq<Seq<char>> {
    Seq::new(shown.len(), |i: int| shown[i].event->QueryTimeout_server)
}

/// What unreachable servers are reported with: three queries that timed out take one
/// note each, and behind them each server of two or more takes one.
pub open spec fn unreachable_finding(shown: Seq<TimedModel>) -> Seq<ChainModel> {
    let servers = timed_out_servers(shown);
    if shown.len() < 3 {
        Seq::empty()
    } else {
        seq![
            ChainModel {
                kind: "Server Unreachable"@,
                description: RootCauseKind::ServerUnreachable.meaning(),
                evidence_ts: Seq::new(shown.len(), |i: int| shown[i].ts),
                evidence_notes: words_on_all(shown.take(3)) + seqs::firsts(servers).filter(
                    |server: Seq<char>| seqs::occurrences(servers, server) >= 2,
                ).map_values(
                    |server: Seq<char>|
                        text::decimal(seqs::occurrences(servers, server))
                            + " total timeouts to "@ + server,
                ),
                severity: "Warning"@,
            },
        ]
    }
}

proof fn lemma_finding(kind: RootCauseKind, events: Seq<TimedModel>, shown: Seq<TimedModel>)
    requires
        kind != RootCauseKind::Clean,
        kind != RootCauseKind::ServerUnreachable,
        shown == root_cause::evidence(kind, events),
    ensures
        root_cause::chain_if_any(root_cause::chain_of(kind, events)) == finding(
            kind.title(),
            kind.meaning(),
            shown,
            kind.severity(),
        ),
{
    assert forall|i: int| 0 <= i < shown.len() implies root_cause::note_of(
        (#[trigger] shown[i]).event,
    ) == words_on(shown[i].event) by {
        lemma_words_on(shown[i].event);
    }
    assert(root_cause::notes_of(shown) =~= words_on_all(shown));
    assert(root_cause::times_of(shown) =~= Seq::new(shown.len(), |i: int| shown[i].ts));
}

proof fn lemma_unreachable_finding(events: Seq<TimedModel>, shown: Seq<TimedModel>)
    requires
        shown == root_cause::evidence(RootCauseKind::ServerUnreachable, events),
    ensures
        root_cause::chain_if_any(root_cause::chain_of(RootCauseKind::ServerUnreachable, events))
            == unreachable_finding(shown),
{
    if shown.len() >= 3 {
        assert forall|i: int| 0 <= i < shown.len() implies root_cause::note_of(
            (#[trigger] shown[i]).event,
        ) == words_on(shown[i].event) by {
            lemma_words_on(shown[i].event);
        }
        let servers = timed_out_servers(shown);
        assert(root_cause::servers_of(shown) =~= servers);
        assert(seqs::at_most(root_cause::notes_of(shown), 3) =~= words_on_all(shown.take(3)));
        assert(root_cause::times_of(shown) =~= Seq::new(shown.len(), |i: int| shown[i].ts));
        let often = |server: Seq<char>| seqs::occurrences(servers, server) > 1;
        let twice = |server: Seq<char>| seqs::occurrences(servers, server) >= 2;
        assert(often =~= twice);
        let note = |server: Seq<char>| root_cause::total_note(servers, server);
        let words = |server: Seq<char>|
            text::decimal(seqs::occurrences(servers, server)) + " total timeouts to "@ + server;
        assert(note =~= words);
    }
}

proof fn lemma_tunneling(events: Seq<TimedModel>)
    ensures
        events.filter(
            |te: TimedModel| te.event is TunnelingIndicator,
        ) == root_cause::evidence(RootCauseKind::DnsTunneling, events),
{
    let kind = RootCauseKind::DnsTunneling;
    let shows = |te: TimedModel| te.event is TunnelingIndicator;
    let shown = |te: TimedModel| kind.is_shown_by(te.event);
    assert(shows =~= shown);
}

proof fn lemma_generation(events: Seq<TimedModel>)
    ensures
        events.filter(
            |te: TimedModel| te.event is NxdomainFlood,
        ) == root_cause::evidence(RootCauseKind::DgaActivity, events),
{
    let kind = RootCauseKind::DgaActivity;
    let shows = |te: TimedModel| te.event is NxdomainFlood;
    let shown = |te: TimedModel| kind.is_shown_by(te.event);
    assert(shows =~= shown);
}

proof fn lemma_probing(events: Seq<TimedModel>)
    ensures
        events.filter(
            |te: TimedModel|
                te.event is SlowNxdomainProbe && domain::common_base(
                    te.event->SlowNxdomainProbe_names,
                ) is Some,
        ) == root_cause::evidence(RootCauseKind::SubdomainProbing, events),
{
    let kind = RootCauseKind::SubdomainProbing;
    let shows = |te: TimedModel|
        te.event is SlowNxdomainProbe && domain::common_base(
            te.event->SlowNxdomainProbe_names,
        ) is Some;
    let shown = |te: TimedModel| kind.is_shown_by(te.event);
    assert(shows =~= shown);
}

proof fn lemma_rogue(events: Seq<TimedModel>)
    ensures
        events.filter(
            |te: TimedModel| te.event is DuplicateResponse || te.event is UnsolicitedResponse,
        ) == root_cause::evidence(RootCauseKind::RogueResolver, events),
{
    let kind = RootCauseKind::RogueResolver;
    let shows = |te: TimedModel| te.event is DuplicateResponse || te.event is UnsolicitedResponse;
    let shown = |te: TimedModel| kind.is_shown_by(te.event);
    assert(shows =~= shown);
}

proof fn lemma_unreachable(events: Seq<TimedModel>)
    ensures
        events.filter(
            |te: TimedModel| te.event is QueryTimeout,
        ) == root_cause::evidence(RootCauseKind::ServerUnreachable, events),
{
    let kind = RootCauseKind::ServerUnreachable;
    let shows = |te: TimedModel| te.event is QueryTimeout;
    let shown = |te: TimedModel| kind.is_shown_by(te.event);
    assert(shows =~= shown);
}

proof fn lemma_fast_flux(events: Seq<TimedModel>)
    ensures
        events.filter(
            |te: TimedModel| te.event is TtlAnomaly,
        ) == root_cause::evidence(RootCauseKind::FastFlux, events),
{
    let kind = RootCauseKind::FastFlux;
    let shows = |te: TimedModel| te.event is TtlAnomaly;
    let shown = |te: TimedModel| kind.is_shown_by(te.event);
    assert(shows =~= shown);
}

proof fn lemma_instability(events: Seq<TimedModel>)
    ensures
        events.filter(
            |te: TimedModel| te.event is QueryRetransmit,
        ) == root_cause::evidence(RootCauseKind::NetworkInstability, events),
{
    let kind = RootCauseKind::NetworkInstability;
    let shows = |te: TimedModel| te.event is QueryRetransmit;
    let shown = |te: TimedModel| kind.is_shown_by(te.event);
    assert(shows =~= shown);
}

/// The chains of the report: for each cause in turn, the more severe first, the events
/// that show it, in their order.
pub proof fn law_chains_are_the_findings(events: Seq<TimedModel>)
    ensures
        root_cause::report_on(events).chains == finding(
            "DNS Tunneling"@,
            RootCauseKind::DnsTunneling.meaning(),
            events.filter(
                |te: TimedModel| te.event is TunnelingIndicator,
            ),
            "Critical"@,
        ) + finding(
            "DGA Activity"@,
            RootCauseKind::DgaActivity.meaning(),
            events.filter(
                |te: TimedModel| te.event is NxdomainFlood,
            ),
            "Critical"@,
        ) + finding(
            "Subdomain Probing"@,
            RootCauseKind::SubdomainProbing.meaning(),
            events.filter(
                |te: TimedModel|
                    te.event is SlowNxdomainProbe && domain::common_base(
                        te.event->SlowNxdomainProbe_names,
                    ) is Some,
            ),
            "Critical"@,
        ) + finding(
            "Rogue Resolver"@,
            RootCauseKind::RogueResolver.meaning(),
            events.filter(
                |te: TimedModel| te.event is DuplicateResponse || te.event is UnsolicitedResponse,
            ),
            "Critical"@,
        ) + unreachable_finding(
            events.filter(
                |te: TimedModel| te.event is QueryTimeout,
            ),
        ) + finding(
            "Fast-Flux Infrastructure"@,
            RootCauseKind::FastFlux.meaning(),
            events.filter(
                |te: TimedModel| te.event is TtlAnomaly,
            ),
            "Warning"@,
        ) + finding(
            "Network Instability"@,
            RootCauseKind::NetworkInstability.meaning(),
            events.filter(
                |te: TimedModel| te.event is QueryRetransmit,
            ),
            "Warning"@,
        ),
{
    lemma_tunneling(events);
    lemma_finding(
        RootCauseKind::DnsTunneling,
        events,
        root_cause::evidence(RootCauseKind::DnsTunneling, events),
    );
    lemma_generation(events);
    lemma_finding(
        RootCauseKind::DgaActivity,
        events,
        root_cause::evidence(RootCauseKind::DgaActivity, events),
    );
    lemma_probing(events);
    lemma_finding(
        RootCauseKind::SubdomainProbing,
        events,
        root_cause::evidence(RootCauseKind::SubdomainProbing, events),
    );
    lemma_rogue(events);
    lemma_finding(
        RootCauseKind::RogueResolver,
        events,
        root_cause::evidence(RootCauseKind::RogueResolver, events),
    );
    lemma_unreachable(events);
    lemma_unreachable_finding(
        events,
        root_cause::evidence(RootCauseKind::ServerUnreachable, events),
    );
    lemma_fast_flux(events);
    lemma_finding(
        RootCauseKind::FastFlux,
        events,
        root_cause::evidence(RootCauseKind::FastFlux, events),
    );
    lemma_instability(events);
    lemma_finding(
        RootCauseKind::NetworkInstability,
        events,
        root_cause::evidence(RootCauseKind::NetworkInstability, events),
    );
}

/// The report names the first of its chains; without chains it says that all is clean.
/// It is critical where its first chain is.
pub proof fn law_report_names_its_first_chain(events: Seq<TimedModel>)
    ensures
        ({
            let report = root_cause::report_on(events);
            if report.chains.len() == 0 {
                &&& report.primary == "Clean"@
                &&& report.primary_description == RootCauseKind::Clean.meaning()
                &&& !report.has_critical
            } else {
                &&& report.primary == report.chains[0].kind
                &&& report.primary_description == report.chains[0].description
                &&& report.has_critical <==> report.chains[0].severity == "Critical"@
            }
        }),
{
    causes::law_primary_is_first_chain(events);
    let chains = root_cause::report_on(events).chains;
    if chains.len() == 0 {
        assert(root_cause::of_severity(chains, "Critical"@) =~= Seq::empty()) by {
            reveal(Seq::filter);
        }
        assert(root_cause::of_severity(chains, "Warning"@) =~= Seq::empty()) by {
            reveal(Seq::filter);
        }
    }
}

} // verus!
