//! Laws of the matching of queries and responses.

use vstd::prelude::*;

use crate::analyzer;
use crate::analyzer::{AnalyzerModel, PendingModel};
use crate::answered::{Exchange, Transaction};
use crate::dns::{PacketModel, RCode, RecordModel};
use crate::event::{EventModel, Timestamp};
use crate::laws::counting;
use crate::nxdomain;
use crate::nxdomain::Link;
use crate::ttl;
use crate::ttl::TtlObservation;

verus! {

/// A message that went from `src` to `dst` at `ts`.
pub struct Seen {
    pub pkt: PacketModel,
    pub src: Seq<char>,
    pub dst: Seq<char>,
    pub ts: Timestamp,
}

impl Seen {
    /// The exchange that the message belongs to: the client sends queries and
    /// receives responses.
    pub open spec fn exchange(self) -> Exchange {
        if self.pkt.is_response {
            Exchange { txid: self.pkt.txid, client: self.dst, server: self.src }
        } else {
            Exchange { txid: self.pkt.txid, client: self.src, server: self.dst }
        }
    }
}

/// The name that a message asks for: that of its first question.
pub open spec fn name_in(pkt: PacketModel) -> Seq<char> {
    if pkt.questions.len() > 0 {
        pkt.questions[0].name
    } else {
        Seq::empty()
    }
}

/// The mnemonic of the type that a message asks for.
pub open spec fn type_in(pkt: PacketModel) -> Seq<char> {
    if pkt.questions.len() > 0 {
        pkt.questions[0].qtype.mnemonic()
    } else {
        "?"@
    }
}

/// Whether the first question of a message is for a NULL or a TXT record of a name.
pub open spec fn asks_for_data(pkt: PacketModel) -> bool {
    &&& pkt.questions.len() > 0
    &&& pkt.questions[0].name.len() > 0
    &&& pkt.questions[0].qtype is NULL || pkt.questions[0].qtype is TXT
}

/// Whether the time to live of a record counts.
pub open spec fn is_counted(record: RecordModel) -> bool {
    record.ttl > 0 && !(record.rtype is OPT)
}

/// What is remembered after some messages, in their order.
pub open spec fn after_all(state: AnalyzerModel, messages: Seq<Seen>) -> AnalyzerModel
    decreases messages.len(),
{
    if messages.len() == 0 {
        state
    } else {
        let m = messages.last();
        after_all(state, messages.drop_last()).after(m.pkt, m.src, m.dst, m.ts)
    }
}

/// What holds of a query that waits: its repetitions are reported from the
/// threshold on, and its client is known.
pub open spec fn coherent_query(query: PendingModel, clients: Set<Seq<char>>) -> bool {
    &&& query.retransmit_reported <==> query.retransmit_count >= 3
    &&& clients.contains(query.client)
}

/// What holds of a range of times to live: it is not empty, and it is reported
/// once it is wide.
pub open spec fn coherent_range(range: TtlObservation) -> bool {
    &&& 0 < range.ttl_min <= range.ttl_max
    &&& range.reported <==> range.ttl_max >= 10 * range.ttl_min
}

/// What holds of a tracker: nothing is reported before its threshold.
pub open spec fn coherent_tracker(tracker: nxdomain::TrackerModel) -> bool {
    &&& tracker.entries.len() > 0
    &&& tracker.flood_reported ==> tracker.entries.len() >= 20
    &&& tracker.slow_reported ==> tracker.entries.len() >= 5
}

/// What holds of an analysis at any time.
pub open spec fn coherent(state: AnalyzerModel) -> bool {
    &&& analyzer::distinct_exchanges(state.pending)
    &&& forall|i: int|
        0 <= i < state.pending.len() ==> coherent_query(
            #[trigger] state.pending[i],
            state.clients,
        )
    &&& forall|t: Transaction| #[trigger]
        state.answered.contains_key(t) ==> state.clients.contains(t.client)
    &&& forall|name: Seq<char>| #[trigger]
        state.ttl_obs.contains_key(name) ==> coherent_range(state.ttl_obs[name])
    &&& forall|link: Link| #[trigger]
        state.nxdomain.contains_key(link) ==> coherent_tracker(state.nxdomain[link])
    &&& state.clients.finite()
    &&& state.names.finite()
    &&& !state.names.contains(Seq::empty())
}

pub proof fn lemma_coherent_ranges(
    seen: Map<Seq<char>, TtlObservation>,
    records: Seq<RecordModel>,
)
    requires
        forall|name: Seq<char>| #[trigger]
            seen.contains_key(name) ==> coherent_range(seen[name]),
    ensures
        forall|name: Seq<char>| #[trigger]
            ttl::seen_after(seen, records).contains_key(name) ==> coherent_range(
                ttl::seen_after(seen, records)[name],
            ),
    decreases records.len(),
{
    if records.len() > 0 {
        lemma_coherent_ranges(seen, records.drop_last());
        let before = ttl::seen_after(seen, records.drop_last());
        let record = records.last();
        if is_counted(record) {
            assert(before.contains_key(record.name) ==> coherent_range(before[record.name]));
            let range = ttl::range_with(before, record);
            assert(0 < range.ttl_min <= range.ttl_max);
            assert(coherent_range(range.after_report()));
        }
    }
}

pub proof fn lemma_recent_len(tracker: nxdomain::TrackerModel, now: Timestamp)
    ensures
        tracker.recent(now).len() <= tracker.entries.len(),
{
    tracker.entries.lemma_filter_len(
        |entry: nxdomain::EntryModel| nxdomain::is_recent(entry, now),
    );
}

/// An analysis starts coherent.
pub proof fn law_start_is_coherent()
    ensures
        coherent(AnalyzerModel::empty()),
{
}

/// Every message keeps an analysis coherent.
pub proof fn law_messages_keep_coherence(state: AnalyzerModel, m: Seen)
    requires
        coherent(state),
    ensures
        coherent(state.after(m.pkt, m.src, m.dst, m.ts)),
{
    let next = state.after(m.pkt, m.src, m.dst, m.ts);
    let e = m.exchange();
    let place = analyzer::place_of(state.pending, e);
    if m.pkt.is_response {
        lemma_coherent_ranges(state.ttl_obs, m.pkt.answers);
        if analyzer::is_pending(state.pending, e) {
            let entry = nxdomain::EntryModel { ts: m.ts, name: name_in(m.pkt) };
            let tracker = state.tracker_with(e, entry);
            lemma_recent_len(tracker, m.ts);
            assert(coherent_tracker(tracker.after_report(m.ts)));
            assert forall|i: int| 0 <= i < next.pending.len() implies coherent_query(
                #[trigger] next.pending[i],
                next.clients,
            ) by {
                let j = if i < place {
                    i
                } else {
                    i + 1
                };
                assert(next.pending[i] == state.pending[j]);
            }
        }
    } else if analyzer::is_pending(state.pending, e) {
        assert(coherent_query(state.pending[place], state.clients));
    }
}

/// The end of an analysis keeps it coherent.
pub proof fn law_end_keeps_coherence(state: AnalyzerModel)
    requires
        coherent(state),
    ensures
        coherent(state.finalized()),
{
}

/// Whatever messages it has seen, an analysis is coherent.
pub proof fn law_every_state_is_coherent(messages: Seq<Seen>)
    ensures
        coherent(after_all(AnalyzerModel::empty(), messages)),
    decreases messages.len(),
{
    if messages.len() > 0 {
        law_every_state_is_coherent(messages.drop_last());
        law_messages_keep_coherence(
            after_all(AnalyzerModel::empty(), messages.drop_last()),
            messages.last(),
        );
    }
}

proof fn lemma_only_anomalies(
    seen: Map<Seq<char>, TtlObservation>,
    records: Seq<RecordModel>,
    server: Seq<char>,
)
    ensures
        forall|i: int|
            0 <= i < ttl::reports_of(seen, records, server).len() ==> (
            #[trigger] ttl::reports_of(seen, records, server)[i]) is TtlAnomaly,
    decreases records.len(),
{
    if records.len() > 0 {
        lemma_only_anomalies(seen, records.drop_last(), server);
    }
}

/// Whether a message is the NXDOMAIN response to a query that waits.
pub open spec fn is_nxdomain_answer(state: AnalyzerModel, m: Seen) -> bool {
    &&& m.pkt.is_response
    &&& m.pkt.rcode == RCode::NXDomain
    &&& analyzer::is_pending(state.pending, m.exchange())
}

/// What is reported of the NXDOMAIN responses of its server to its client when a
/// message comes.
pub open spec fn nxdomain_reports(state: AnalyzerModel, m: Seen) -> Seq<EventModel> {
    if is_nxdomain_answer(state, m) {
        state.tracker_with(
            m.exchange(),
            nxdomain::EntryModel { ts: m.ts, name: name_in(m.pkt) },
        ).report(m.dst, m.src, m.ts)
    } else {
        Seq::empty()
    }
}

/// What a response gives rise to in any case: it is received, or unsolicited.
pub open spec fn outcome(state: AnalyzerModel, m: Seen) -> EventModel {
    if analyzer::is_pending(state.pending, m.exchange()) {
        received(state, m)
    } else {
        unsolicited(m)
    }
}

pub proof fn lemma_count_response_parts(
    state: AnalyzerModel,
    m: Seen,
    p: spec_fn(EventModel) -> bool,
)
    requires
        m.pkt.is_response,
    ensures
        counting::count(state.events(m.pkt, m.src, m.dst, m.ts), p) == (if m.pkt.truncated && p(
            truncation(m),
        ) {
            1nat
        } else {
            0nat
        }) + counting::count(ttl::reports_of(state.ttl_obs, m.pkt.answers, m.src), p) + (
        if state.is_duplicate(m.pkt, m.src, m.dst) && p(duplicate_of(state, m)) {
            1nat
        } else {
            0nat
        }) + (if p(outcome(state, m)) {
            1nat
        } else {
            0nat
        }) + counting::count(nxdomain_reports(state, m), p),
{
    let truncated = analyzer::event_if(m.pkt.truncated, truncation(m));
    let reports = ttl::reports_of(state.ttl_obs, m.pkt.answers, m.src);
    let twice = analyzer::event_if(
        state.is_duplicate(m.pkt, m.src, m.dst),
        duplicate_of(state, m),
    );
    let one = seq![outcome(state, m)];
    let last = nxdomain_reports(state, m);
    let events = state.events(m.pkt, m.src, m.dst, m.ts);
    assert(events =~= truncated + reports + twice + (one + last));
    counting::lemma_count_concat(truncated + reports + twice, one + last, p);
    counting::lemma_count_concat(truncated + reports, twice, p);
    counting::lemma_count_concat(truncated, reports, p);
    counting::lemma_count_concat(one, last, p);
    counting::lemma_count_empty(p);
    counting::lemma_count_one(truncation(m), p);
    counting::lemma_count_one(duplicate_of(state, m), p);
    counting::lemma_count_one(outcome(state, m), p);
}

proof fn lemma_count_response_events(
    state: AnalyzerModel,
    m: Seen,
    p: spec_fn(EventModel) -> bool,
)
    requires
        m.pkt.is_response,
        forall|event: EventModel| event is TtlAnomaly ==> !#[trigger] p(event),
        forall|event: EventModel| event is NxdomainFlood ==> !#[trigger] p(event),
        forall|event: EventModel| event is SlowNxdomainProbe ==> !#[trigger] p(event),
    ensures
        counting::count(state.events(m.pkt, m.src, m.dst, m.ts), p) == (if m.pkt.truncated && p(
            truncation(m),
        ) {
            1nat
        } else {
            0nat
        }) + (if state.is_duplicate(m.pkt, m.src, m.dst) && p(duplicate_of(state, m)) {
            1nat
        } else {
            0nat
        }) + (if p(outcome(state, m)) {
            1nat
        } else {
            0nat
        }),
{
    lemma_count_response_parts(state, m, p);
    lemma_only_anomalies(state.ttl_obs, m.pkt.answers, m.src);
    counting::lemma_count_none(ttl::reports_of(state.ttl_obs, m.pkt.answers, m.src), p);
    counting::lemma_count_none(nxdomain_reports(state, m), p);
}

/// The event of a response to a query that waits.
pub open spec fn received(state: AnalyzerModel, m: Seen) -> EventModel {
    let query = state.pending[analyzer::place_of(state.pending, m.exchange())];
    EventModel::ResponseReceived {
        txid: m.pkt.txid,
        client: m.dst,
        server: m.src,
        name: name_in(m.pkt),
        qtype: query.qtype,
        rcode: m.pkt.rcode.mnemonic(),
        answer_count: m.pkt.answers.len(),
        latency_us: m.ts.at() - query.ts.at(),
    }
}

/// The event of a response that nobody waits for.
pub open spec fn unsolicited(m: Seen) -> EventModel {
    EventModel::UnsolicitedResponse {
        txid: m.pkt.txid,
        src: m.src,
        name: name_in(m.pkt),
        rcode: m.pkt.rcode.mnemonic(),
    }
}

/// The event of a response to a transaction that was answered from another source.
pub open spec fn duplicate_of(state: AnalyzerModel, m: Seen) -> EventModel {
    state.duplicate(m.pkt, m.src, m.dst)
}

/// The event of a response that was cut short.
pub open spec fn truncation(m: Seen) -> EventModel {
    EventModel::TruncatedResponse {
        txid: m.pkt.txid,
        client: m.dst,
        server: m.src,
        name: name_in(m.pkt),
    }
}

/// A response to a query that waits is received, once; any other response is
/// unsolicited, once.
pub proof fn law_response_is_received_or_unsolicited(state: AnalyzerModel, m: Seen)
    requires
        m.pkt.is_response,
    ensures
        ({
            let events = state.events(m.pkt, m.src, m.dst, m.ts);
            let waits = analyzer::is_pending(state.pending, m.exchange());
            &&& counting::count(events, |event: EventModel| event is ResponseReceived) == (
            if waits {
                1nat
            } else {
                0nat
            })
            &&& counting::count(events, |event: EventModel| event is UnsolicitedResponse) == (
            if waits {
                0nat
            } else {
                1nat
            })
            &&& waits ==> events.contains(received(state, m))
            &&& !waits ==> events.contains(unsolicited(m))
        }),
{
    let events = state.events(m.pkt, m.src, m.dst, m.ts);
    lemma_count_response_events(state, m, |event: EventModel| event is ResponseReceived);
    lemma_count_response_events(state, m, |event: EventModel| event is UnsolicitedResponse);
    let wanted = if analyzer::is_pending(state.pending, m.exchange()) {
        received(state, m)
    } else {
        unsolicited(m)
    };
    let p = |event: EventModel| event == wanted;
    lemma_count_response_events(state, m, p);
    events.lemma_filter_pred(p, 0);
    events.lemma_filter_contains_rev(p, events.filter(p)[0]);
}

/// A response is reported as cut short where its TC bit is set, and only there,
/// before anything else; for the rest it is told as if the bit were not set.
pub proof fn law_truncation_is_reported(state: AnalyzerModel, m: Seen)
    requires
        m.pkt.is_response,
    ensures
        ({
            let events = state.events(m.pkt, m.src, m.dst, m.ts);
            let whole = PacketModel { truncated: false, ..m.pkt };
            &&& counting::count(events, |event: EventModel| event is TruncatedResponse) == (
            if m.pkt.truncated {
                1nat
            } else {
                0nat
            })
            &&& m.pkt.truncated ==> events == seq![truncation(m)] + state.events(
                whole,
                m.src,
                m.dst,
                m.ts,
            )
            &&& state.after(m.pkt, m.src, m.dst, m.ts) == state.after(whole, m.src, m.dst, m.ts)
        }),
{
    lemma_count_response_events(state, m, |event: EventModel| event is TruncatedResponse);
    let whole = PacketModel { truncated: false, ..m.pkt };
    if m.pkt.truncated {
        assert(state.answer_events(m.pkt, m.src, m.dst, m.ts) == state.answer_events(
            whole,
            m.src,
            m.dst,
            m.ts,
        ));
        assert(state.events(m.pkt, m.src, m.dst, m.ts) =~= seq![truncation(m)] + state.events(
            whole,
            m.src,
            m.dst,
            m.ts,
        ));
    }
}

/// A response is reported as a duplicate, once, where its transaction was answered
/// before from another source, whether or not a query waits for it, and only there.
pub proof fn law_duplicate_is_reported(state: AnalyzerModel, m: Seen)
    requires
        m.pkt.is_response,
    ensures
        ({
            let events = state.events(m.pkt, m.src, m.dst, m.ts);
            let t = m.exchange().transaction();
            let twice = state.answered.contains_key(t) && state.answered[t] != m.src;
            &&& counting::count(events, |event: EventModel| event is DuplicateResponse) == (
            if twice {
                1nat
            } else {
                0nat
            })
            &&& twice ==> events.contains(
                EventModel::DuplicateResponse {
                    txid: m.pkt.txid,
                    name: name_in(m.pkt),
                    first_src: state.answered[t],
                    second_src: m.src,
                },
            )
        }),
{
    let events = state.events(m.pkt, m.src, m.dst, m.ts);
    lemma_count_response_events(state, m, |event: EventModel| event is DuplicateResponse);
    if state.is_duplicate(m.pkt, m.src, m.dst) {
        let p = |event: EventModel| event == duplicate_of(state, m);
        lemma_count_response_events(state, m, p);
        events.lemma_filter_pred(p, 0);
        events.lemma_filter_contains_rev(p, events.filter(p)[0]);
    }
}

/// The two sources of every reported duplicate differ.
pub proof fn law_duplicate_sources_differ(state: AnalyzerModel, m: Seen, i: int)
    requires
        0 <= i < state.events(m.pkt, m.src, m.dst, m.ts).len(),
        state.events(m.pkt, m.src, m.dst, m.ts)[i] is DuplicateResponse,
    ensures
        ({
            let event = state.events(m.pkt, m.src, m.dst, m.ts)[i];
            event->DuplicateResponse_first_src != event->DuplicateResponse_second_src
        }),
{
    let events = state.events(m.pkt, m.src, m.dst, m.ts);
    let p = |event: EventModel|
        event is DuplicateResponse && event->DuplicateResponse_first_src
            == event->DuplicateResponse_second_src;
    if m.pkt.is_response {
        lemma_count_response_events(state, m, p);
    } else {
        lemma_count_query_events(state, m, p);
    }
    if p(events[i]) {
        events.lemma_filter_contains(p, i);
    }
}

/// A query is told once: as sent where none of its exchange waits, as repeated
/// too often when its repetitions reach the threshold, and otherwise not at all.
pub proof fn law_query_is_sent_or_repeated(state: AnalyzerModel, m: Seen)
    requires
        !m.pkt.is_response,
    ensures
        ({
            let events = state.events(m.pkt, m.src, m.dst, m.ts);
            let waits = analyzer::is_pending(state.pending, m.exchange());
            let query = state.pending[analyzer::place_of(state.pending, m.exchange())];
            &&& counting::count(events, |event: EventModel| event is QuerySent) == (if waits {
                0nat
            } else {
                1nat
            })
            &&& counting::count(events, |event: EventModel| event is QueryRetransmit) == (if waits
                && query.is_retransmit() {
                1nat
            } else {
                0nat
            })
            &&& !waits ==> events.contains(sent(m))
        }),
{
    lemma_count_query_events(state, m, |event: EventModel| event is QuerySent);
    lemma_count_query_events(state, m, |event: EventModel| event is QueryRetransmit);
    if !analyzer::is_pending(state.pending, m.exchange()) {
        let events = state.events(m.pkt, m.src, m.dst, m.ts);
        assert(events[events.len() - 1] == sent(m));
    }
}

/// Whether an event is a sign of tunneling in a query of a client for a name, for
/// a reason.
pub open spec fn is_sign(event: EventModel, m: Seen, reason: Seq<char>) -> bool {
    &&& event is TunnelingIndicator
    &&& event->TunnelingIndicator_client == m.src
    &&& event->TunnelingIndicator_name == name_in(m.pkt)
    &&& event->TunnelingIndicator_reason == reason
}

/// A query shows one sign of tunneling for a long name and one for a type that
/// tunnels use, also when it is sent again, and no other.
pub proof fn law_tunneling_is_reported(state: AnalyzerModel, m: Seen)
    requires
        !m.pkt.is_response,
    ensures
        ({
            let events = state.events(m.pkt, m.src, m.dst, m.ts);
            let long = if m.pkt.has_long_name() {
                1nat
            } else {
                0nat
            };
            let kind = if asks_for_data(m.pkt) {
                1nat
            } else {
                0nat
            };
            &&& counting::count(events, |event: EventModel| event is TunnelingIndicator) == long
                + kind
            &&& counting::count(events, |event: EventModel| is_sign(event, m, "long_label"@))
                == long
            &&& counting::count(
                events,
                |event: EventModel| is_sign(event, m, "suspicious_qtype"@),
            ) == kind
        }),
{
    reveal_strlit("long_label");
    reveal_strlit("suspicious_qtype");
    assert("long_label"@.len() != "suspicious_qtype"@.len());
    lemma_count_query_events(state, m, |event: EventModel| event is TunnelingIndicator);
    lemma_count_query_events(
        state,
        m,
        |event: EventModel| is_sign(event, m, "long_label"@),
    );
    lemma_count_query_events(
        state,
        m,
        |event: EventModel| is_sign(event, m, "suspicious_qtype"@),
    );
}

/// The event of a query that is new.
pub open spec fn sent(m: Seen) -> EventModel {
    EventModel::QuerySent {
        txid: m.pkt.txid,
        client: m.src,
        server: m.dst,
        name: name_in(m.pkt),
        qtype: type_in(m.pkt),
    }
}

pub proof fn lemma_count_query_events(
    state: AnalyzerModel,
    m: Seen,
    p: spec_fn(EventModel) -> bool,
)
    requires
        !m.pkt.is_response,
    ensures
        ({
            let e = m.exchange();
            let query = state.pending[analyzer::place_of(state.pending, e)];
            let long = analyzer::tunneling(m.pkt, m.src, "long_label"@);
            let kind = analyzer::tunneling(m.pkt, m.src, "suspicious_qtype"@);
            let again = EventModel::QueryRetransmit {
                txid: m.pkt.txid,
                client: m.src,
                name: name_in(m.pkt),
                count: query.next_count() as nat,
            };
            counting::count(state.events(m.pkt, m.src, m.dst, m.ts), p) == (if m.pkt.has_long_name()
                && p(long) {
                1nat
            } else {
                0nat
            }) + (if asks_for_data(m.pkt) && p(kind) {
                1nat
            } else {
                0nat
            }) + (if analyzer::is_pending(state.pending, e) {
                if query.is_retransmit() && p(again) {
                    1nat
                } else {
                    0nat
                }
            } else if p(sent(m)) {
                1nat
            } else {
                0nat
            })
        }),
{
    let e = m.exchange();
    let query = state.pending[analyzer::place_of(state.pending, e)];
    let long = analyzer::tunneling(m.pkt, m.src, "long_label"@);
    let kind = analyzer::tunneling(m.pkt, m.src, "suspicious_qtype"@);
    let again = EventModel::QueryRetransmit {
        txid: m.pkt.txid,
        client: m.src,
        name: name_in(m.pkt),
        count: query.next_count() as nat,
    };
    let first = analyzer::event_if(m.pkt.has_long_name(), long);
    let second = analyzer::event_if(asks_for_data(m.pkt), kind);
    counting::lemma_count_empty(p);
    counting::lemma_count_one(long, p);
    counting::lemma_count_one(kind, p);
    counting::lemma_count_one(again, p);
    counting::lemma_count_concat(first, second, p);
    if analyzer::is_pending(state.pending, e) {
        let third = analyzer::event_if(query.is_retransmit(), again);
        assert(state.events(m.pkt, m.src, m.dst, m.ts) == first + second + third);
        counting::lemma_count_concat(first + second, third, p);
    } else {
        assert(state.events(m.pkt, m.src, m.dst, m.ts) == (first + second).push(sent(m)));
        counting::lemma_count_push(first + second, sent(m), p);
    }
}

/// The query of an exchange that waits.
pub open spec fn waiting(state: AnalyzerModel, e: Exchange) -> PendingModel {
    state.pending[analyzer::place_of(state.pending, e)]
}

/// Whether two queries are the same but for their repetitions.
pub open spec fn same_query(a: PendingModel, b: PendingModel) -> bool {
    &&& a.txid == b.txid
    &&& a.ts == b.ts
    &&& a.client == b.client
    &&& a.server == b.server
    &&& a.name == b.name
    &&& a.qtype == b.qtype
}

/// A query goes on waiting, whatever messages come, but for a response with its
/// transaction identifier from its server to its client.
pub proof fn law_query_waits_for_its_response(state: AnalyzerModel, m: Seen, e: Exchange)
    requires
        coherent(state),
        analyzer::is_pending(state.pending, e),
        m.pkt.is_response ==> m.exchange() != e,
    ensures
        ({
            let next = state.after(m.pkt, m.src, m.dst, m.ts);
            analyzer::is_pending(next.pending, e) && same_query(
                waiting(next, e),
                waiting(state, e),
            )
        }),
{
    let next = state.after(m.pkt, m.src, m.dst, m.ts);
    let f = m.exchange();
    let i = analyzer::place_of(state.pending, e);
    law_messages_keep_coherence(state, m);
    assert(state.pending[i].exchange() == e);
    if m.pkt.is_response && analyzer::is_pending(state.pending, f) {
        let k = analyzer::place_of(state.pending, f);
        assert(state.pending[k].exchange() == f);
        let j = if i < k {
            i
        } else {
            i - 1
        };
        assert(next.pending[j] == state.pending[i]);
        analyzer::lemma_place(next.pending, e, j);
    } else {
        assert(same_query(next.pending[i], state.pending[i]));
        analyzer::lemma_place(next.pending, e, i);
    }
}

/// Whether a message is a query of an exchange.
pub open spec fn is_query_of(m: Seen, e: Exchange) -> bool {
    !m.pkt.is_response && m.exchange() == e
}

/// A query that waits is changed only by queries of its own exchange, which count
/// as its repetitions; messages that differ in identifier, client or server leave
/// it as it is.
pub proof fn law_only_its_own_messages_change_a_query(state: AnalyzerModel, m: Seen, e: Exchange)
    requires
        coherent(state),
        analyzer::is_pending(state.pending, e),
        m.pkt.is_response ==> m.exchange() != e,
    ensures
        ({
            let next = state.after(m.pkt, m.src, m.dst, m.ts);
            waiting(next, e) == if is_query_of(m, e) {
                waiting(state, e).repeated()
            } else {
                waiting(state, e)
            }
        }),
{
    let next = state.after(m.pkt, m.src, m.dst, m.ts);
    let f = m.exchange();
    let i = analyzer::place_of(state.pending, e);
    law_messages_keep_coherence(state, m);
    assert(state.pending[i].exchange() == e);
    if m.pkt.is_response && analyzer::is_pending(state.pending, f) {
        let k = analyzer::place_of(state.pending, f);
        assert(state.pending[k].exchange() == f);
        let j = if i < k {
            i
        } else {
            i - 1
        };
        assert(next.pending[j] == state.pending[i]);
        analyzer::lemma_place(next.pending, e, j);
    } else {
        if !m.pkt.is_response && analyzer::is_pending(state.pending, f) {
            let k = analyzer::place_of(state.pending, f);
            assert(state.pending[k].exchange() == f);
        }
        assert(next.pending[i].exchange() == e);
        analyzer::lemma_place(next.pending, e, i);
    }
}

/// A query no longer waits once its response has come.
pub proof fn law_answered_query_waits_no_longer(state: AnalyzerModel, m: Seen)
    requires
        coherent(state),
        m.pkt.is_response,
        analyzer::is_pending(state.pending, m.exchange()),
    ensures
        !analyzer::is_pending(
            state.after(m.pkt, m.src, m.dst, m.ts).pending,
            m.exchange(),
        ),
{
    let e = m.exchange();
    let next = state.after(m.pkt, m.src, m.dst, m.ts);
    let k = analyzer::place_of(state.pending, e);
    assert(state.pending[k].exchange() == e);
    assert forall|j: int| 0 <= j < next.pending.len() implies (
    #[trigger] next.pending[j]).exchange() != e by {
        let i = if j < k {
            j
        } else {
            j + 1
        };
        assert(next.pending[j] == state.pending[i]);
    }
}

/// A query starts to wait when it is sent, and only then.
pub proof fn law_only_query_starts_to_wait(state: AnalyzerModel, m: Seen, e: Exchange)
    requires
        !analyzer::is_pending(state.pending, e),
    ensures
        analyzer::is_pending(state.after(m.pkt, m.src, m.dst, m.ts).pending, e) <==> (
        !m.pkt.is_response && m.exchange() == e),
{
    let next = state.after(m.pkt, m.src, m.dst, m.ts);
    let f = m.exchange();
    if m.pkt.is_response {
        if analyzer::is_pending(state.pending, f) {
            let k = analyzer::place_of(state.pending, f);
            assert forall|j: int| 0 <= j < next.pending.len() implies (
            #[trigger] next.pending[j]).exchange() != e by {
                let i = if j < k {
                    j
                } else {
                    j + 1
                };
                assert(next.pending[j] == state.pending[i]);
            }
        }
    } else if analyzer::is_pending(state.pending, f) {
        let k = analyzer::place_of(state.pending, f);
        assert(state.pending[k].exchange() == f);
        assert forall|j: int| 0 <= j < next.pending.len() implies (
        #[trigger] next.pending[j]).exchange() != e by {
            assert(next.pending[j].exchange() == state.pending[j].exchange());
        }
    } else {
        assert forall|j: int| 0 <= j < state.pending.len() implies (
        #[trigger] next.pending[j]).exchange() != e by {
            assert(next.pending[j] == state.pending[j]);
        }
        let last = next.pending.len() - 1;
        assert(next.pending[last].exchange() == f);
    }
}

/// A query that is sent is answered by the next response of its exchange: the
/// response is received, with the time that has passed and the type that was
/// asked for, and the query no longer waits.
pub proof fn law_response_answers_its_query(state: AnalyzerModel, query: Seen, response: Seen)
    requires
        coherent(state),
        !query.pkt.is_response,
        response.pkt.is_response,
        query.exchange() == response.exchange(),
        !analyzer::is_pending(state.pending, query.exchange()),
    ensures
        ({
            let asked = state.after(query.pkt, query.src, query.dst, query.ts);
            let answered = asked.after(
                response.pkt,
                response.src,
                response.dst,
                response.ts,
            );
            &&& asked.events(
                response.pkt,
                response.src,
                response.dst,
                response.ts,
            ).contains(
                EventModel::ResponseReceived {
                    txid: query.pkt.txid,
                    client: query.src,
                    server: query.dst,
                    name: name_in(response.pkt),
                    qtype: type_in(query.pkt),
                    rcode: response.pkt.rcode.mnemonic(),
                    answer_count: response.pkt.answers.len(),
                    latency_us: response.ts.at() - query.ts.at(),
                },
            )
            &&& answered.pending == state.pending
        }),
{
    let e = query.exchange();
    let asked = state.after(query.pkt, query.src, query.dst, query.ts);
    law_messages_keep_coherence(state, query);
    let last = asked.pending.len() - 1;
    assert(asked.pending[last].exchange() == e);
    analyzer::lemma_place(asked.pending, e, last);
    law_response_is_received_or_unsolicited(asked, response);
    assert(asked.pending.remove(last) =~= state.pending);
}

/// None of the messages is a query of the exchange.
pub open spec fn no_query_of(messages: Seq<Seen>, e: Exchange) -> bool {
    forall|i: int|
        0 <= i < messages.len() ==> !(!(#[trigger] messages[i]).pkt.is_response
            && messages[i].exchange() == e)
}

/// None of the messages is a response of the exchange.
pub open spec fn no_response_of(messages: Seq<Seen>, e: Exchange) -> bool {
    forall|i: int|
        0 <= i < messages.len() ==> !((#[trigger] messages[i]).pkt.is_response
            && messages[i].exchange() == e)
}

proof fn lemma_stays_answered(state: AnalyzerModel, messages: Seq<Seen>, e: Exchange)
    requires
        !analyzer::is_pending(state.pending, e),
        no_query_of(messages, e),
    ensures
        !analyzer::is_pending(after_all(state, messages).pending, e),
    decreases messages.len(),
{
    if messages.len() > 0 {
        let front = messages.drop_last();
        let last = messages[messages.len() - 1];
        assert forall|i: int| 0 <= i < front.len() implies !(!(#[trigger] front[i]).pkt.is_response
            && front[i].exchange() == e) by {
            assert(front[i] == messages[i]);
        }
        lemma_stays_answered(state, front, e);
        law_only_query_starts_to_wait(after_all(state, front), last, e);
    }
}

/// Once an exchange has been answered, one more response to it is unsolicited,
/// whatever messages come between, unless its query is sent again.
pub proof fn law_second_response_is_unsolicited(
    state: AnalyzerModel,
    first: Seen,
    between: Seq<Seen>,
    second: Seen,
)
    requires
        coherent(state),
        first.pkt.is_response,
        second.pkt.is_response,
        first.exchange() == second.exchange(),
        no_query_of(between, first.exchange()),
    ensures
        after_all(
            state.after(first.pkt, first.src, first.dst, first.ts),
            between,
        ).events(second.pkt, second.src, second.dst, second.ts).contains(unsolicited(second)),
{
    let e = first.exchange();
    let next = state.after(first.pkt, first.src, first.dst, first.ts);
    if analyzer::is_pending(state.pending, e) {
        law_answered_query_waits_no_longer(state, first);
    }
    assert(!analyzer::is_pending(next.pending, e));
    lemma_stays_answered(next, between, e);
    law_response_is_received_or_unsolicited(after_all(next, between), second);
}

/// A response from a server that was not asked is unsolicited, though the
/// client waits for the response of another server to the same transaction.
pub proof fn law_response_of_other_server_is_unsolicited(state: AnalyzerModel, m: Seen)
    requires
        m.pkt.is_response,
        forall|i: int|
            0 <= i < state.pending.len() && (#[trigger] state.pending[i]).txid == m.pkt.txid
                && state.pending[i].client == m.dst ==> state.pending[i].server != m.src,
    ensures
        state.events(m.pkt, m.src, m.dst, m.ts).contains(unsolicited(m)),
        state.after(m.pkt, m.src, m.dst, m.ts).pending == state.pending,
{
    law_response_is_received_or_unsolicited(state, m);
}

proof fn lemma_stays_waiting(state: AnalyzerModel, messages: Seq<Seen>, e: Exchange)
    requires
        coherent(state),
        analyzer::is_pending(state.pending, e),
        no_response_of(messages, e),
    ensures
        coherent(after_all(state, messages)),
        analyzer::is_pending(after_all(state, messages).pending, e),
        same_query(waiting(after_all(state, messages), e), waiting(state, e)),
    decreases messages.len(),
{
    if messages.len() > 0 {
        let front = messages.drop_last();
        let last = messages[messages.len() - 1];
        assert forall|i: int| 0 <= i < front.len() implies !((#[trigger] front[i]).pkt.is_response
            && front[i].exchange() == e) by {
            assert(front[i] == messages[i]);
        }
        lemma_stays_waiting(state, front, e);
        law_query_waits_for_its_response(after_all(state, front), last, e);
        law_messages_keep_coherence(after_all(state, front), last);
    }
}

/// A query without a response is reported when the analysis ends, whatever
/// other messages came, if the timeout has passed by then.
pub proof fn law_unanswered_query_times_out(
    state: AnalyzerModel,
    query: Seen,
    messages: Seq<Seen>,
    now: Timestamp,
)
    requires
        coherent(state),
        !query.pkt.is_response,
        !analyzer::is_pending(state.pending, query.exchange()),
        no_response_of(messages, query.exchange()),
        now.at() - query.ts.at() >= 5_000_000,
    ensures
        after_all(
            state.after(query.pkt, query.src, query.dst, query.ts),
            messages,
        ).timeouts(now).contains(
            EventModel::QueryTimeout {
                txid: 0,
                client: query.src,
                server: query.dst,
                name: name_in(query.pkt),
                qtype: type_in(query.pkt),
            },
        ),
{
    let e = query.exchange();
    let asked = state.after(query.pkt, query.src, query.dst, query.ts);
    law_messages_keep_coherence(state, query);
    let last = asked.pending.len() - 1;
    assert(asked.pending[last].exchange() == e);
    analyzer::lemma_place(asked.pending, e, last);
    lemma_stays_waiting(asked, messages, e);
    let end = after_all(asked, messages);
    let i = analyzer::place_of(end.pending, e);
    assert(end.pending[i].exchange() == e);
    lemma_overdue_is_reported(end, now, i);
}

proof fn lemma_overdue_is_reported(state: AnalyzerModel, now: Timestamp, i: int)
    requires
        0 <= i < state.pending.len(),
        state.pending[i].is_overdue(now),
    ensures
        state.timeouts(now).contains(state.pending[i].timeout()),
{
    let keep = |query: PendingModel| query.is_overdue(now);
    let late = state.pending.filter(keep);
    state.pending.lemma_filter_contains(keep, i);
    let k = choose|k: int| 0 <= k < late.len() && late[k] == state.pending[i];
    assert(state.timeouts(now)[k] == state.pending[i].timeout());
}

/// What the end of an analysis reports are queries that have waited too long,
/// and all of them.
pub proof fn law_timeouts_are_overdue_queries(state: AnalyzerModel, now: Timestamp)
    ensures
        forall|i: int|
            0 <= i < state.pending.len() && (#[trigger] state.pending[i]).is_overdue(now)
                ==> state.timeouts(now).contains(state.pending[i].timeout()),
        forall|k: int|
            0 <= k < state.timeouts(now).len() ==> exists|i: int|
                0 <= i < state.pending.len() && (#[trigger] state.pending[i]).is_overdue(now)
                    && #[trigger] state.timeouts(now)[k] == state.pending[i].timeout(),
{
    let keep = |query: PendingModel| query.is_overdue(now);
    let late = state.pending.filter(keep);
    assert forall|i: int|
        0 <= i < state.pending.len() && (#[trigger] state.pending[i]).is_overdue(
            now,
        ) implies state.timeouts(now).contains(state.pending[i].timeout()) by {
        lemma_overdue_is_reported(state, now, i);
    }
    assert forall|k: int| 0 <= k < state.timeouts(now).len() implies exists|i: int|
        0 <= i < state.pending.len() && (#[trigger] state.pending[i]).is_overdue(now)
            && #[trigger] state.timeouts(now)[k] == state.pending[i].timeout() by {
        state.pending.lemma_filter_pred(keep, k);
        state.pending.lemma_filter_contains_rev(keep, late[k]);
        let i = choose|i: int| 0 <= i < state.pending.len() && state.pending[i] == late[k];
        assert(state.pending[i].is_overdue(now));
    }
}

/// The end of an analysis reports each query once: a second end reports nothing.
pub proof fn law_second_end_reports_nothing(state: AnalyzerModel, now: Timestamp)
    ensures
        state.finalized().timeouts(now) == Seq::<EventModel>::empty(),
{
    reveal(Seq::filter);
    assert(state.finalized().timeouts(now) =~= Seq::empty());
}

/// A query that has been sent again `times` times.
pub open spec fn repeated_times(query: PendingModel, times: nat) -> PendingModel
    decreases times,
{
    if times == 0 {
        query
    } else {
        repeated_times(query, (times - 1) as nat).repeated()
    }
}

/// Repetitions of a query are counted, and reported exactly when they reach the
/// threshold, so at most once.
pub proof fn law_retransmit_is_reported_once(query: PendingModel, times: nat)
    requires
        query.retransmit_count == 0,
        !query.retransmit_reported,
        times < usize::MAX,
    ensures
        repeated_times(query, times).retransmit_count == times,
        repeated_times(query, times).is_retransmit() <==> times + 1 == 3,
    decreases times,
{
    lemma_repeated(query, times);
}

proof fn lemma_repeated(query: PendingModel, times: nat)
    requires
        query.retransmit_count == 0,
        !query.retransmit_reported,
        times < usize::MAX,
    ensures
        repeated_times(query, times).retransmit_count == times,
        repeated_times(query, times).retransmit_reported <==> times >= 3,
    decreases times,
{
    if times > 0 {
        lemma_repeated(query, (times - 1) as nat);
    }
}

/// The clients and the names that are counted are never forgotten, and a message
/// adds at most one of each.
pub proof fn law_clients_and_names_only_grow(state: AnalyzerModel, m: Seen)
    requires
        coherent(state),
    ensures
        ({
            let next = state.after(m.pkt, m.src, m.dst, m.ts);
            &&& state.clients.subset_of(next.clients)
            &&& state.names.subset_of(next.names)
            &&& state.clients.len() <= next.clients.len() <= state.clients.len() + 1
            &&& state.names.len() <= next.names.len() <= state.names.len() + 1
        }),
{
}

/// A query of an ordinary type for a name of ordinary length, not sent before,
/// is an event and nothing more.
pub proof fn law_ordinary_query_is_quiet(state: AnalyzerModel, m: Seen)
    requires
        !m.pkt.is_response,
        !m.pkt.has_long_name(),
        !asks_for_data(m.pkt),
        !analyzer::is_pending(state.pending, m.exchange()),
    ensures
        state.events(m.pkt, m.src, m.dst, m.ts) == seq![sent(m)],
{
    assert(state.events(m.pkt, m.src, m.dst, m.ts) =~= seq![sent(m)]);
}

/// A complete response to a query that waits, whose transaction no other source
/// has answered, with a code other than NXDOMAIN and no answers whose times to
/// live vary widely, is an event and nothing more.
pub proof fn law_ordinary_response_is_quiet(state: AnalyzerModel, m: Seen)
    requires
        m.pkt.is_response,
        !m.pkt.truncated,
        m.pkt.rcode != RCode::NXDomain,
        analyzer::is_pending(state.pending, m.exchange()),
        !state.is_duplicate(m.pkt, m.src, m.dst),
        ttl::reports_of(state.ttl_obs, m.pkt.answers, m.src).len() == 0,
    ensures
        state.events(m.pkt, m.src, m.dst, m.ts) == seq![received(state, m)],
{
    assert(state.events(m.pkt, m.src, m.dst, m.ts) =~= seq![received(state, m)]);
}

proof fn lemma_answer_is_kept(state: AnalyzerModel, messages: Seq<Seen>, t: Transaction)
    requires
        state.answered.contains_key(t),
    ensures
        after_all(state, messages).answered.contains_key(t),
        after_all(state, messages).answered[t] == state.answered[t],
    decreases messages.len(),
{
    if messages.len() > 0 {
        lemma_answer_is_kept(state, messages.drop_last(), t);
    }
}

/// Once a transaction has been answered, a response to it from another source is
/// reported as a duplicate of the first answer, whatever messages come between.
pub proof fn law_answer_from_other_source_is_duplicate(
    state: AnalyzerModel,
    first: Seen,
    between: Seq<Seen>,
    second: Seen,
)
    requires
        first.pkt.is_response,
        second.pkt.is_response,
        first.exchange().transaction() == second.exchange().transaction(),
        first.src != second.src,
        analyzer::is_pending(state.pending, first.exchange()),
        !state.answered.contains_key(first.exchange().transaction()),
    ensures
        after_all(
            state.after(first.pkt, first.src, first.dst, first.ts),
            between,
        ).events(second.pkt, second.src, second.dst, second.ts).contains(
            EventModel::DuplicateResponse {
                txid: first.pkt.txid,
                name: name_in(second.pkt),
                first_src: first.src,
                second_src: second.src,
            },
        ),
{
    let t = first.exchange().transaction();
    let next = state.after(first.pkt, first.src, first.dst, first.ts);
    assert(next.answered[t] == first.src);
    lemma_answer_is_kept(next, between, t);
    law_duplicate_is_reported(after_all(next, between), second);
}

/// A spoofed response that comes before the real one is unsolicited and no
/// duplicate; the real one is then received and no duplicate either.
pub proof fn law_early_spoof_is_only_unsolicited(
    state: AnalyzerModel,
    spoofed: Seen,
    answer: Seen,
)
    requires
        spoofed.pkt.is_response,
        answer.pkt.is_response,
        spoofed.exchange().transaction() == answer.exchange().transaction(),
        analyzer::is_pending(state.pending, answer.exchange()),
        !analyzer::is_pending(state.pending, spoofed.exchange()),
        !state.answered.contains_key(answer.exchange().transaction()),
    ensures
        ({
            let early = state.events(spoofed.pkt, spoofed.src, spoofed.dst, spoofed.ts);
            let next = state.after(spoofed.pkt, spoofed.src, spoofed.dst, spoofed.ts);
            let late = next.events(answer.pkt, answer.src, answer.dst, answer.ts);
            let twice = |event: EventModel| event is DuplicateResponse;
            &&& early.contains(unsolicited(spoofed))
            &&& counting::count(early, twice) == 0
            &&& late.contains(received(state, answer))
            &&& counting::count(late, twice) == 0
            &&& counting::count(late, |event: EventModel| event is UnsolicitedResponse) == 0
        }),
{
    let next = state.after(spoofed.pkt, spoofed.src, spoofed.dst, spoofed.ts);
    law_response_is_received_or_unsolicited(state, spoofed);
    law_duplicate_is_reported(state, spoofed);
    law_response_is_received_or_unsolicited(next, answer);
    law_duplicate_is_reported(next, answer);
}

} // verus!
