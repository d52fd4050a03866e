//! Laws of what an analysis tells, said of the messages that it has seen alone.

use vstd::prelude::*;

use crate::analyzer;
use crate::analyzer::{AnalyzerModel, PendingModel};
use crate::answered::{Exchange, Transaction};
use crate::dns;
use crate::dns::{RCode, RecordModel};
use crate::event::{EventModel, Timestamp};
use crate::laws::anomalies;
use crate::laws::exchanges;
use crate::laws::exchanges::Seen;
use crate::laws::histories;
use crate::nxdomain;
use crate::nxdomain::{EntryModel, Link};
use crate::seqs;
use crate::ttl;
use crate::ttl::TtlObservation;

verus! {

/// A query without a response so far, and how many times it was sent again.
pub struct Ask {
    pub txid: u16,
    pub client: Seq<char>,
    pub server: Seq<char>,
    pub name: Seq<char>,
    pub qtype: Seq<char>,
    pub ts: Timestamp,
    pub repeats: nat,
}

/// Whether a query went from a client to a server under an identifier.
pub open spec fn is_between(a: Ask, txid: u16, client: Seq<char>, server: Seq<char>) -> bool {
    a.txid == txid && a.client == client && a.server == server
}

/// The query that a message is.
pub open spec fn ask_of(m: Seen) -> Ask {
    Ask {
        txid: m.pkt.txid,
        client: m.src,
        server: m.dst,
        name: exchanges::name_in(m.pkt),
        qtype: exchanges::type_in(m.pkt),
        ts: m.ts,
        repeats: 0,
    }
}

/// The queries without a response, oldest first. A query like one that has no
/// response yet repeats it; a response takes away the query from its receiver to its
/// sender under its identifier.
pub open spec fn open_asks(messages: Seq<Seen>) -> Seq<Ask>
    decreases messages.len(),
{
    if messages.len() == 0 {
        Seq::empty()
    } else {
        let front = open_asks(messages.drop_last());
        let m = messages.last();
        if m.pkt.is_response {
            front.filter(|a: Ask| !is_between(a, m.pkt.txid, m.dst, m.src))
        } else if is_open(front, m.pkt.txid, m.src, m.dst) {
            front.map_values(
                |a: Ask|
                    if is_between(a, m.pkt.txid, m.src, m.dst) {
                        Ask { repeats: a.repeats + 1, ..a }
                    } else {
                        a
                    },
            )
        } else {
            front.push(ask_of(m))
        }
    }
}

/// Whether one of the queries went from a client to a server under an identifier.
pub open spec fn is_open(
    asks: Seq<Ask>,
    txid: u16,
    client: Seq<char>,
    server: Seq<char>,
) -> bool {
    exists|i: int| 0 <= i < asks.len() && is_between(#[trigger] asks[i], txid, client, server)
}

/// A query as an analysis remembers it.
pub open spec fn pending_of(a: Ask) -> PendingModel {
    PendingModel {
        txid: a.txid,
        ts: a.ts,
        client: a.client,
        server: a.server,
        name: a.name,
        qtype: a.qtype,
        retransmit_count: if a.repeats <= usize::MAX {
            a.repeats as usize
        } else {
            usize::MAX
        },
        retransmit_reported: a.repeats >= 3,
    }
}

proof fn lemma_filter_removes<T>(items: Seq<T>, keep: spec_fn(T) -> bool, i: int)
    requires
        0 <= i < items.len(),
        !keep(items[i]),
        forall|j: int| 0 <= j < items.len() && j != i ==> keep(#[trigger] items[j]),
    ensures
        items.filter(keep) == items.remove(i),
    decreases items.len(),
{
    reveal(Seq::filter);
    let front = items.drop_last();
    assert forall|j: int| 0 <= j < front.len() && j != i implies keep(#[trigger] front[j]) by {
        assert(front[j] == items[j]);
    }
    if i == items.len() - 1 {
        seqs::lemma_filter_all(front, keep);
        assert(items.remove(i) =~= front);
    } else {
        assert(front[i] == items[i]);
        lemma_filter_removes(front, keep, i);
        assert(keep(items[items.len() - 1]));
        assert(items.remove(i) =~= front.remove(i).push(items.last()));
    }
}

/// What an analysis remembers of queries are those without a response, in the order
/// in which they were sent first.
pub proof fn law_open_queries_are_remembered(messages: Seq<Seen>)
    ensures
        histories::state_after(messages).pending == open_asks(messages).map_values(
            |a: Ask| pending_of(a),
        ),
    decreases messages.len(),
{
    let model = |a: Ask| pending_of(a);
    if messages.len() == 0 {
        assert(open_asks(messages).map_values(model) =~= Seq::empty());
    } else {
        let front = messages.drop_last();
        let m = messages.last();
        law_open_queries_are_remembered(front);
        exchanges::law_every_state_is_coherent(front);
        let state = histories::state_after(front);
        let asks = open_asks(front);
        let now = open_asks(messages);
        let e = m.exchange();
        lemma_is_open(front, e);
        let place = analyzer::place_of(state.pending, e);
        let next = histories::state_after(messages).pending;
        assert forall|j: int| 0 <= j < asks.len() && j != place && analyzer::is_pending(
            state.pending,
            e,
        ) implies !is_between(#[trigger] asks[j], e.txid, e.client, e.server) by {
            assert(state.pending[j] == pending_of(asks[j]));
            assert(state.pending[place].exchange() == e);
            if state.pending[j].exchange() == e {
                analyzer::lemma_place(state.pending, e, j);
            }
        }
        if analyzer::is_pending(state.pending, e) {
            assert(state.pending[place] == pending_of(asks[place]));
            assert(is_between(asks[place], e.txid, e.client, e.server));
        }
        if m.pkt.is_response {
            let keep = |a: Ask| !is_between(a, m.pkt.txid, m.dst, m.src);
            if analyzer::is_pending(state.pending, e) {
                lemma_filter_removes(asks, keep, place);
            } else {
                seqs::lemma_filter_all(asks, keep);
            }
        }
        assert(next =~= now.map_values(model));
    }
}

proof fn lemma_is_open(messages: Seq<Seen>, e: Exchange)
    requires
        histories::state_after(messages).pending == open_asks(messages).map_values(
            |a: Ask| pending_of(a),
        ),
    ensures
        analyzer::is_pending(histories::state_after(messages).pending, e) <==> is_open(
            open_asks(messages),
            e.txid,
            e.client,
            e.server,
        ),
{
    let pending = histories::state_after(messages).pending;
    let asks = open_asks(messages);
    if analyzer::is_pending(pending, e) {
        let i = analyzer::place_of(pending, e);
        assert(pending[i] == pending_of(asks[i]));
        assert(is_between(asks[i], e.txid, e.client, e.server));
    }
    if is_open(asks, e.txid, e.client, e.server) {
        let i = choose|i: int|
            0 <= i < asks.len() && is_between(#[trigger] asks[i], e.txid, e.client, e.server);
        assert(pending[i] == pending_of(asks[i]));
        assert(pending[i].exchange() == e);
    }
}

proof fn lemma_waiting(messages: Seq<Seen>, e: Exchange, i: int)
    requires
        0 <= i < open_asks(messages).len(),
        is_between(open_asks(messages)[i], e.txid, e.client, e.server),
    ensures
        ({
            let pending = histories::state_after(messages).pending;
            &&& analyzer::is_pending(pending, e)
            &&& pending[analyzer::place_of(pending, e)] == pending_of(open_asks(messages)[i])
        }),
{
    law_open_queries_are_remembered(messages);
    exchanges::law_every_state_is_coherent(messages);
    let pending = histories::state_after(messages).pending;
    assert(pending[i] == pending_of(open_asks(messages)[i]));
    analyzer::lemma_place(pending, e, i);
}

/// The signs of tunneling in a query: one if the name in any of its questions is
/// long, one if its first question is for a NULL or a TXT record of a name.
pub open spec fn signs_in(m: Seen) -> Seq<EventModel> {
    let long = exists|i: int|
        0 <= i < m.pkt.questions.len() && dns::is_long_name(#[trigger] m.pkt.questions[i].name);
    let name = exchanges::name_in(m.pkt);
    let qtype = exchanges::type_in(m.pkt);
    (if long {
        seq![
            EventModel::TunnelingIndicator { client: m.src, name, qtype, reason: "long_label"@ },
        ]
    } else {
        Seq::empty()
    }) + (if exchanges::asks_for_data(m.pkt) {
        seq![
            EventModel::TunnelingIndicator {
                client: m.src,
                name,
                qtype,
                reason: "suspicious_qtype"@,
            },
        ]
    } else {
        Seq::empty()
    })
}

/// A query that repeats no open one is told as sent, behind its signs of tunneling.
pub proof fn law_new_query_is_told(messages: Seq<Seen>, m: Seen)
    requires
        !m.pkt.is_response,
        !is_open(open_asks(messages), m.pkt.txid, m.src, m.dst),
    ensures
        histories::events_at(histories::state_after(messages), m) == signs_in(m).push(
            EventModel::QuerySent {
                txid: m.pkt.txid,
                client: m.src,
                server: m.dst,
                name: exchanges::name_in(m.pkt),
                qtype: exchanges::type_in(m.pkt),
            },
        ),
{
    law_open_queries_are_remembered(messages);
    lemma_is_open(messages, m.exchange());
}

/// A query that repeats an open one is told only for its signs of tunneling, but for
/// the third repetition, which is told, with the number 3, behind them.
pub proof fn law_repetition_is_told(messages: Seq<Seen>, m: Seen, i: int)
    requires
        !m.pkt.is_response,
        0 <= i < open_asks(messages).len(),
        is_between(open_asks(messages)[i], m.pkt.txid, m.src, m.dst),
    ensures
        histories::events_at(histories::state_after(messages), m) == if open_asks(
            messages,
        )[i].repeats == 2 {
            signs_in(m).push(
                EventModel::QueryRetransmit {
                    txid: m.pkt.txid,
                    client: m.src,
                    name: exchanges::name_in(m.pkt),
                    count: 3,
                },
            )
        } else {
            signs_in(m)
        },
{
    lemma_waiting(messages, m.exchange(), i);
    let events = histories::events_at(histories::state_after(messages), m);
    if open_asks(messages)[i].repeats != 2 {
        assert(events =~= signs_in(m));
    }
}

/// A query of another type than NULL and TXT, none of whose names is long, is told as
/// sent and nothing else, if it repeats no open one.
pub proof fn law_plain_query_is_told(messages: Seq<Seen>, m: Seen)
    requires
        !m.pkt.is_response,
        !is_open(open_asks(messages), m.pkt.txid, m.src, m.dst),
        m.pkt.questions.len() > 0,
        !(m.pkt.questions[0].qtype is NULL),
        !(m.pkt.questions[0].qtype is TXT),
        forall|i: int|
            0 <= i < m.pkt.questions.len() ==> !dns::is_long_name(
                #[trigger] m.pkt.questions[i].name,
            ),
    ensures
        histories::events_at(histories::state_after(messages), m) == seq![
            EventModel::QuerySent {
                txid: m.pkt.txid,
                client: m.src,
                server: m.dst,
                name: m.pkt.questions[0].name,
                qtype: m.pkt.questions[0].qtype.mnemonic(),
            },
        ],
{
    law_new_query_is_told(messages, m);
}

/// The source of the first response that answered an open query of a client under an
/// identifier.
pub open spec fn first_source(
    messages: Seq<Seen>,
    txid: u16,
    client: Seq<char>,
) -> Option<Seq<char>>
    decreases messages.len(),
{
    if messages.len() == 0 {
        None
    } else {
        let front = messages.drop_last();
        let m = messages.last();
        if first_source(front, txid, client) is None && m.pkt.is_response && m.pkt.txid == txid
            && m.dst == client && is_open(open_asks(front), txid, client, m.src) {
            Some(m.src)
        } else {
            first_source(front, txid, client)
        }
    }
}

/// An analysis remembers the source of the first answer to each transaction.
pub proof fn law_first_sources_are_remembered(messages: Seq<Seen>, txid: u16, client: Seq<char>)
    ensures
        ({
            let answered = histories::state_after(messages).answered;
            let transaction = Transaction { txid, client };
            match first_source(messages, txid, client) {
                Some(source) => answered.contains_key(transaction) && answered[transaction]
                    == source,
                None => !answered.contains_key(transaction),
            }
        }),
    decreases messages.len(),
{
    if messages.len() > 0 {
        let front = messages.drop_last();
        let m = messages.last();
        law_first_sources_are_remembered(front, txid, client);
        law_open_queries_are_remembered(front);
        lemma_is_open(front, m.exchange());
    }
}

/// The records in the answers of all responses.
pub open spec fn records_of(messages: Seq<Seen>) -> Seq<RecordModel>
    decreases messages.len(),
{
    if messages.len() == 0 {
        Seq::empty()
    } else if messages.last().pkt.is_response {
        records_of(messages.drop_last()) + messages.last().pkt.answers
    } else {
        records_of(messages.drop_last())
    }
}

/// The lowest time to live of a name that counts; 0 if there is none.
pub open spec fn lowest(records: Seq<RecordModel>, name: Seq<char>) -> u32
    decreases records.len(),
{
    if records.len() == 0 {
        0
    } else {
        let known = lowest(records.drop_last(), name);
        let r = records.last();
        if exchanges::is_counted(r) && r.name == name && (known == 0 || r.ttl < known) {
            r.ttl
        } else {
            known
        }
    }
}

/// The highest time to live of a name that counts; 0 if there is none.
pub open spec fn highest(records: Seq<RecordModel>, name: Seq<char>) -> u32
    decreases records.len(),
{
    if records.len() == 0 {
        0
    } else {
        let known = highest(records.drop_last(), name);
        let r = records.last();
        if exchanges::is_counted(r) && r.name == name && r.ttl > known {
            r.ttl
        } else {
            known
        }
    }
}

/// Whether the times to live of a name differ by the factor ten at least.
pub open spec fn is_spread(records: Seq<RecordModel>, name: Seq<char>) -> bool {
    0 < highest(records, name) && highest(records, name) >= 10 * lowest(records, name)
}

/// What records tell, one after the other, where `known` came before them: each record
/// by which the times to live of its name come to differ by the factor ten tells the
/// lowest and the highest of them.
pub open spec fn spreads_in(
    known: Seq<RecordModel>,
    records: Seq<RecordModel>,
    server: Seq<char>,
) -> Seq<EventModel>
    decreases records.len(),
{
    if records.len() == 0 {
        Seq::empty()
    } else {
        let before = known + records.drop_last();
        let name = records.last().name;
        let told = spreads_in(known, records.drop_last(), server);
        if is_spread(known + records, name) && !is_spread(before, name) {
            told.push(
                EventModel::TtlAnomaly {
                    name,
                    ttl_min: lowest(known + records, name),
                    ttl_max: highest(known + records, name),
                    server,
                },
            )
        } else {
            told
        }
    }
}

proof fn lemma_seen(records: Seq<RecordModel>, name: Seq<char>)
    ensures
        ({
            let seen = ttl::seen_after(Map::empty(), records);
            &&& seen.contains_key(name) <==> highest(records, name) > 0
            &&& highest(records, name) > 0 <==> lowest(records, name) > 0
            &&& lowest(records, name) <= highest(records, name)
            &&& seen.contains_key(name) ==> seen[name] == TtlObservation {
                ttl_min: lowest(records, name),
                ttl_max: highest(records, name),
                reported: is_spread(records, name),
            }
        }),
    decreases records.len(),
{
    if records.len() > 0 {
        lemma_seen(records.drop_last(), name);
    }
}

proof fn lemma_seen_concat(
    seen: Map<Seq<char>, TtlObservation>,
    a: Seq<RecordModel>,
    b: Seq<RecordModel>,
)
    ensures
        ttl::seen_after(ttl::seen_after(seen, a), b) == ttl::seen_after(seen, a + b),
    decreases b.len(),
{
    if b.len() > 0 {
        lemma_seen_concat(seen, a, b.drop_last());
        assert((a + b).drop_last() =~= a + b.drop_last());
    } else {
        assert(a + b =~= a);
    }
}

proof fn lemma_spreads(known: Seq<RecordModel>, records: Seq<RecordModel>, server: Seq<char>)
    ensures
        ttl::reports_of(ttl::seen_after(Map::empty(), known), records, server) == spreads_in(
            known,
            records,
            server,
        ),
    decreases records.len(),
{
    if records.len() > 0 {
        let front = records.drop_last();
        let name = records.last().name;
        lemma_spreads(known, front, server);
        lemma_seen_concat(Map::empty(), known, front);
        assert((known + records).drop_last() =~= known + front);
        lemma_seen(known + front, name);
        lemma_seen(known + records, name);
        let told = spreads_in(known, front, server);
        let report = ttl::report_of(
            ttl::seen_after(Map::empty(), known + front),
            records.last(),
            server,
        );
        assert(told + report =~= spreads_in(known, records, server));
    }
}

proof fn lemma_ranges(messages: Seq<Seen>)
    ensures
        histories::state_after(messages).ttl_obs == ttl::seen_after(
            Map::empty(),
            records_of(messages),
        ),
    decreases messages.len(),
{
    if messages.len() > 0 {
        let front = messages.drop_last();
        lemma_ranges(front);
        if messages.last().pkt.is_response {
            lemma_seen_concat(Map::empty(), records_of(front), messages.last().pkt.answers);
        }
    }
}

/// The range that an analysis remembers of a name is that of the times to live in the
/// answers of all responses, whatever their types, but for OPT records and zero.
pub proof fn law_ranges_are_remembered(messages: Seq<Seen>, name: Seq<char>)
    ensures
        ({
            let ranges = histories::state_after(messages).ttl_obs;
            let records = records_of(messages);
            &&& ranges.contains_key(name) <==> highest(records, name) > 0
            &&& ranges.contains_key(name) ==> ranges[name] == TtlObservation {
                ttl_min: lowest(records, name),
                ttl_max: highest(records, name),
                reported: is_spread(records, name),
            }
        }),
{
    lemma_ranges(messages);
    lemma_seen(records_of(messages), name);
}

/// The lowest and the highest time to live of a name are those of two of its records,
/// and no record of it that counts lies outside of them.
pub proof fn law_bounds_are_met(records: Seq<RecordModel>, name: Seq<char>)
    ensures
        forall|i: int|
            0 <= i < records.len() && (#[trigger] records[i]).name == name && records[i].rtype
                != dns::QType::OPT && records[i].ttl != 0 ==> lowest(records, name)
                <= records[i].ttl <= highest(records, name),
        highest(records, name) > 0 ==> exists|i: int|
            0 <= i < records.len() && (#[trigger] records[i]).name == name && records[i].rtype
                != dns::QType::OPT && records[i].ttl == highest(records, name),
        highest(records, name) > 0 ==> exists|i: int|
            0 <= i < records.len() && (#[trigger] records[i]).name == name && records[i].rtype
                != dns::QType::OPT && records[i].ttl == lowest(records, name),
    decreases records.len(),
{
    if records.len() > 0 {
        let front = records.drop_last();
        let n = records.len() - 1;
        law_bounds_are_met(front, name);
        lemma_seen(front, name);
        lemma_seen(records, name);
        assert forall|i: int|
            0 <= i < records.len() && (#[trigger] records[i]).name == name && records[i].rtype
                != dns::QType::OPT && records[i].ttl != 0 implies lowest(records, name)
            <= records[i].ttl <= highest(records, name) by {
            if i < n {
                assert(front[i] == records[i]);
            }
        }
        if highest(records, name) > 0 {
            if highest(records, name) == highest(front, name) {
                let i = choose|i: int|
                    0 <= i < front.len() && (#[trigger] front[i]).name == name && front[i].rtype
                        != dns::QType::OPT && front[i].ttl == highest(front, name);
                assert(records[i] == front[i]);
            } else {
                assert(records[n].ttl == highest(records, name));
            }
            if lowest(records, name) == lowest(front, name) {
                let i = choose|i: int|
                    0 <= i < front.len() && (#[trigger] front[i]).name == name && front[i].rtype
                        != dns::QType::OPT && front[i].ttl == lowest(front, name);
                assert(records[i] == front[i]);
            } else {
                assert(records[n].ttl == lowest(records, name));
            }
        }
    }
}

/// A response all of whose answers are OPT records or have the time to live zero
/// leaves the ranges as they were, and tells nothing of them.
pub proof fn law_other_records_change_no_range(state: AnalyzerModel, m: Seen)
    requires
        m.pkt.is_response,
        forall|i: int|
            0 <= i < m.pkt.answers.len() ==> (#[trigger] m.pkt.answers[i]).rtype
                == dns::QType::OPT || m.pkt.answers[i].ttl == 0,
    ensures
        state.after(m.pkt, m.src, m.dst, m.ts).ttl_obs == state.ttl_obs,
        forall|i: int|
            0 <= i < histories::events_at(state, m).len() ==> !((
            #[trigger] histories::events_at(state, m)[i]) is TtlAnomaly),
{
    lemma_uncounted(state.ttl_obs, m.pkt.answers, m.src);
}

proof fn lemma_uncounted(
    seen: Map<Seq<char>, TtlObservation>,
    records: Seq<RecordModel>,
    server: Seq<char>,
)
    requires
        forall|i: int|
            0 <= i < records.len() ==> (#[trigger] records[i]).rtype == dns::QType::OPT
                || records[i].ttl == 0,
    ensures
        ttl::seen_after(seen, records) == seen,
        ttl::reports_of(seen, records, server) == Seq::<EventModel>::empty(),
    decreases records.len(),
{
    if records.len() > 0 {
        let front = records.drop_last();
        assert forall|i: int| 0 <= i < front.len() implies (#[trigger] front[i]).rtype
            == dns::QType::OPT || front[i].ttl == 0 by {
            assert(front[i] == records[i]);
        }
        lemma_uncounted(seen, front, server);
        assert(records[records.len() - 1] == records.last());
        assert(ttl::reports_of(seen, records, server) =~= Seq::<EventModel>::empty());
    }
}

/// After a response, the range of the name of each of its answers holds the time to
/// live of that answer, whatever its type, but for OPT records and zero.
pub proof fn law_answer_lies_in_its_range(state: AnalyzerModel, m: Seen, i: int)
    requires
        m.pkt.is_response,
        0 <= i < m.pkt.answers.len(),
        m.pkt.answers[i].rtype != dns::QType::OPT,
        m.pkt.answers[i].ttl != 0,
    ensures
        ({
            let ranges = state.after(m.pkt, m.src, m.dst, m.ts).ttl_obs;
            let record = m.pkt.answers[i];
            &&& ranges.contains_key(record.name)
            &&& ranges[record.name].ttl_min <= record.ttl <= ranges[record.name].ttl_max
        }),
{
    anomalies::law_range_holds_what_was_seen(state.ttl_obs, m.pkt.answers, i);
}

/// The NXDOMAIN responses of a server to open queries of a client.
pub open spec fn refusals(
    messages: Seq<Seen>,
    client: Seq<char>,
    server: Seq<char>,
) -> Seq<EntryModel>
    decreases messages.len(),
{
    if messages.len() == 0 {
        Seq::empty()
    } else {
        let front = messages.drop_last();
        let m = messages.last();
        if m.pkt.is_response && m.pkt.rcode == RCode::NXDomain && m.src == server && m.dst
            == client && is_open(open_asks(front), m.pkt.txid, client, server) {
            refusals(front, client, server).push(
                EntryModel { ts: m.ts, name: exchanges::name_in(m.pkt) },
            )
        } else {
            refusals(front, client, server)
        }
    }
}

/// Those of the first `k` responses that came at most ten seconds before the last of
/// them.
pub open spec fn crowd(entries: Seq<EntryModel>, k: int) -> Seq<EntryModel> {
    entries.take(k).filter(
        |e: EntryModel| entries[k - 1].ts.at() - e.ts.at() <= 10_000_000,
    )
}

/// The names of responses.
pub open spec fn names(entries: Seq<EntryModel>) -> Seq<Seq<char>> {
    Seq::new(entries.len(), |i: int| entries[i].name)
}

/// What the last of some NXDOMAIN responses of a server to a client tells: a flood
/// where twenty of them came in ten seconds for the first time, with the first five
/// names; a slow probe where it is the fifth.
pub open spec fn told_of_refusals(
    entries: Seq<EntryModel>,
    client: Seq<char>,
    server: Seq<char>,
) -> Seq<EventModel> {
    let n = entries.len() as int;
    if crowd(entries, n).len() >= 20 && forall|k: int|
        1 <= k < n ==> (#[trigger] crowd(entries, k)).len() < 20 {
        seq![
            EventModel::NxdomainFlood {
                client,
                server,
                count: crowd(entries, n).len(),
                window_sec: 10,
                sample_names: names(crowd(entries, n).take(5)),
            },
        ]
    } else if n == 5 {
        seq![EventModel::SlowNxdomainProbe { client, server, count: 5, names: names(entries) }]
    } else {
        Seq::empty()
    }
}

proof fn lemma_crowd(entries: Seq<EntryModel>, k: int)
    requires
        1 <= k <= entries.len(),
    ensures
        crowd(entries, k) == anomalies::recent_at(entries, k),
        anomalies::floods_at(entries, k) <==> crowd(entries, k).len() >= 20,
{
    let near = |e: EntryModel| entries[k - 1].ts.at() - e.ts.at() <= 10_000_000;
    let recent = |e: EntryModel| nxdomain::is_recent(e, entries[k - 1].ts);
    assert(near =~= recent);
}

proof fn lemma_refusals(messages: Seq<Seen>, client: Seq<char>, server: Seq<char>)
    ensures
        refusals(messages, client, server) == histories::nxdomain_answers(
            messages,
            Link { client, server },
        ),
    decreases messages.len(),
{
    if messages.len() > 0 {
        let front = messages.drop_last();
        lemma_refusals(front, client, server);
        law_open_queries_are_remembered(front);
        lemma_is_open(front, messages.last().exchange());
    }
}

proof fn lemma_told_of_refusals(
    entries: Seq<EntryModel>,
    client: Seq<char>,
    server: Seq<char>,
)
    requires
        entries.len() > 0,
    ensures
        anomalies::before_last_report(entries).report(client, server, entries.last().ts)
            == told_of_refusals(entries, client, server),
{
    let n = entries.len() as int;
    let tracker = anomalies::before_last_report(entries);
    let now = entries.last().ts;
    let front = entries.drop_last();
    anomalies::lemma_tracker_after(front);
    anomalies::lemma_flood_reported(front);
    anomalies::lemma_floods_grow(entries);
    anomalies::law_slow_probe_is_reported_at_threshold(entries);
    assert(tracker.entries =~= entries);
    assert(entries.take(n) =~= entries);
    lemma_crowd(entries, n);
    assert(tracker.recent(now) == crowd(entries, n));
    let first = forall|k: int| 1 <= k < n ==> (#[trigger] crowd(entries, k)).len() < 20;
    if first {
        assert forall|k: int| !anomalies::floods_at(front, k) by {
            if 1 <= k < n {
                lemma_crowd(entries, k);
                assert(crowd(entries, k).len() < 20);
                assert(anomalies::floods_at(entries, k) <==> anomalies::floods_at(front, k));
            }
        }
    } else {
        let k = choose|k: int| 1 <= k < n && (#[trigger] crowd(entries, k)).len() >= 20;
        lemma_crowd(entries, k);
        assert(anomalies::floods_at(entries, k));
        assert(anomalies::floods_at(front, k));
    }
    assert(tracker.is_flood(now) <==> crowd(entries, n).len() >= 20 && first);
    if tracker.is_flood(now) {
        let recent = crowd(entries, n);
        assert(seqs::at_most(nxdomain::names_of(recent), 5) =~= names(recent.take(5)));
    } else if n == 5 {
        assert(nxdomain::names_of(entries) =~= names(entries));
    }
}

/// What a response tells before what becomes of it: that it was cut short, what times
/// to live have come to differ widely, and that another source answered its
/// transaction before.
pub open spec fn told_first(messages: Seq<Seen>, m: Seen) -> Seq<EventModel> {
    let name = exchanges::name_in(m.pkt);
    (if m.pkt.truncated {
        seq![
            EventModel::TruncatedResponse {
                txid: m.pkt.txid,
                client: m.dst,
                server: m.src,
                name,
            },
        ]
    } else {
        Seq::empty()
    }) + spreads_in(records_of(messages), m.pkt.answers, m.src) + (match first_source(
        messages,
        m.pkt.txid,
        m.dst,
    ) {
        Some(source) => if source != m.src {
            seq![
                EventModel::DuplicateResponse {
                    txid: m.pkt.txid,
                    name,
                    first_src: source,
                    second_src: m.src,
                },
            ]
        } else {
            Seq::empty()
        },
        None => Seq::empty(),
    })
}

proof fn lemma_told_first(messages: Seq<Seen>, m: Seen)
    requires
        m.pkt.is_response,
    ensures
        ({
            let state = histories::state_after(messages);
            let events = histories::events_at(state, m);
            &&& analyzer::is_pending(state.pending, m.exchange()) ==> events == told_first(
                messages,
                m,
            ) + state.answer_events(m.pkt, m.src, m.dst, m.ts)
            &&& !analyzer::is_pending(state.pending, m.exchange()) ==> events == told_first(
                messages,
                m,
            ) + seq![exchanges::unsolicited(m)]
        }),
{
    law_first_sources_are_remembered(messages, m.pkt.txid, m.dst);
    lemma_ranges(messages);
    lemma_spreads(records_of(messages), m.pkt.answers, m.src);
}

/// A response to an open query is told as received, with the time since the query
/// was sent first and the type it asked for; an NXDOMAIN response may tell of a flood
/// or a slow probe behind that.
pub proof fn law_answer_is_told(messages: Seq<Seen>, m: Seen, i: int)
    requires
        m.pkt.is_response,
        0 <= i < open_asks(messages).len(),
        is_between(open_asks(messages)[i], m.pkt.txid, m.dst, m.src),
    ensures
        histories::events_at(histories::state_after(messages), m) == told_first(messages, m)
            + seq![
            EventModel::ResponseReceived {
                txid: m.pkt.txid,
                client: m.dst,
                server: m.src,
                name: exchanges::name_in(m.pkt),
                qtype: open_asks(messages)[i].qtype,
                rcode: m.pkt.rcode.mnemonic(),
                answer_count: m.pkt.answers.len(),
                latency_us: m.ts.at() - open_asks(messages)[i].ts.at(),
            },
        ] + (if m.pkt.rcode == RCode::NXDomain {
            told_of_refusals(
                refusals(messages, m.dst, m.src).push(
                    EntryModel { ts: m.ts, name: exchanges::name_in(m.pkt) },
                ),
                m.dst,
                m.src,
            )
        } else {
            Seq::empty()
        }),
{
    let state = histories::state_after(messages);
    lemma_waiting(messages, m.exchange(), i);
    lemma_told_first(messages, m);
    if m.pkt.rcode == RCode::NXDomain {
        let link = Link { client: m.dst, server: m.src };
        let entry = EntryModel { ts: m.ts, name: exchanges::name_in(m.pkt) };
        let entries = refusals(messages, m.dst, m.src);
        lemma_refusals(messages, m.dst, m.src);
        histories::lemma_tracker(messages, link);
        assert(entries.push(entry).drop_last() =~= entries);
        lemma_told_of_refusals(entries.push(entry), m.dst, m.src);
    }
    let told = told_first(messages, m);
    let first = seq![exchanges::received(state, m)];
    let last = exchanges::nxdomain_reports(state, m);
    assert(state.answer_events(m.pkt, m.src, m.dst, m.ts) =~= first + last);
    assert(told + (first + last) =~= told + first + last);
}

/// A response to no open query is told as unsolicited.
pub proof fn law_unsolicited_response_is_told(messages: Seq<Seen>, m: Seen)
    requires
        m.pkt.is_response,
        !is_open(open_asks(messages), m.pkt.txid, m.dst, m.src),
    ensures
        histories::events_at(histories::state_after(messages), m) == told_first(
            messages,
            m,
        ).push(
            EventModel::UnsolicitedResponse {
                txid: m.pkt.txid,
                src: m.src,
                name: exchanges::name_in(m.pkt),
                rcode: m.pkt.rcode.mnemonic(),
            },
        ),
{
    law_open_queries_are_remembered(messages);
    lemma_is_open(messages, m.exchange());
    lemma_told_first(messages, m);
    let told = told_first(messages, m);
    assert(told + seq![exchanges::unsolicited(m)] =~= told.push(exchanges::unsolicited(m)));
}

proof fn lemma_filter_map<A, B>(
    items: Seq<A>,
    f: spec_fn(A) -> B,
    keep: spec_fn(B) -> bool,
    keep_first: spec_fn(A) -> bool,
)
    requires
        forall|a: A| keep_first(a) == keep(#[trigger] f(a)),
    ensures
        items.map_values(f).filter(keep) == items.filter(keep_first).map_values(f),
    decreases items.len(),
{
    reveal(Seq::filter);
    if items.len() > 0 {
        let front = items.drop_last();
        lemma_filter_map(front, f, keep, keep_first);
        assert(items.map_values(f).drop_last() =~= front.map_values(f));
        assert(keep_first(items.last()) == keep(f(items.last())));
        assert(items.filter(keep_first).map_values(f) =~= if keep_first(items.last()) {
            front.filter(keep_first).map_values(f).push(f(items.last()))
        } else {
            front.filter(keep_first).map_values(f)
        });
    } else {
        assert(items.map_values(f).filter(keep) =~= items.filter(keep_first).map_values(f));
    }
}

/// At the end, each query without a response that was sent first at least five
/// seconds before is told to have timed out, and no other.
pub proof fn law_timeouts_are_told(messages: Seq<Seen>, now: Timestamp)
    ensures
        histories::state_after(messages).timeouts(now) == open_asks(messages).filter(
            |a: Ask| now.at() - a.ts.at() >= 5_000_000,
        ).map_values(
            |a: Ask|
                EventModel::QueryTimeout {
                    txid: 0,
                    client: a.client,
                    server: a.server,
                    name: a.name,
                    qtype: a.qtype,
                },
        ),
{
    let model = |a: Ask| pending_of(a);
    let late = |query: PendingModel| query.is_overdue(now);
    let late_ask = |a: Ask| now.at() - a.ts.at() >= 5_000_000;
    let asks = open_asks(messages);
    law_open_queries_are_remembered(messages);
    lemma_filter_map(asks, model, late, late_ask);
    let kept = asks.filter(late_ask);
    let told = |a: Ask|
        EventModel::QueryTimeout {
            txid: 0,
            client: a.client,
            server: a.server,
            name: a.name,
            qtype: a.qtype,
        };
    assert(kept.map_values(model).map_values(|query: PendingModel| query.timeout())
        =~= kept.map_values(told));
}

/// What an analysis counts as clients are the senders of queries, and as names those
/// in the first questions of queries, but for the empty one.
pub proof fn law_clients_and_names_are_those_of_queries(messages: Seq<Seen>)
    ensures
        forall|client: Seq<char>| #[trigger]
            histories::state_after(messages).clients.contains(client) <==> exists|i: int|
                0 <= i < messages.len() && !(#[trigger] messages[i]).pkt.is_response
                    && messages[i].src == client,
        forall|name: Seq<char>| #[trigger]
            histories::state_after(messages).names.contains(name) <==> name.len() > 0
                && exists|i: int|
                0 <= i < messages.len() && !(#[trigger] messages[i]).pkt.is_response
                    && messages[i].pkt.questions.len() > 0 && messages[i].pkt.questions[0].name
                    == name,
    decreases messages.len(),
{
    let state = histories::state_after(messages);
    if messages.len() > 0 {
        let front = messages.drop_last();
        let n = messages.len() - 1;
        let before = histories::state_after(front);
        law_clients_and_names_are_those_of_queries(front);
        assert forall|client: Seq<char>| #[trigger] state.clients.contains(client)
            <==> exists|i: int|
            0 <= i < messages.len() && !(#[trigger] messages[i]).pkt.is_response
                && messages[i].src == client by {
            assert(before.clients.contains(client) <==> exists|i: int|
                0 <= i < front.len() && !(#[trigger] front[i]).pkt.is_response && front[i].src
                    == client);
            if exists|i: int|
                0 <= i < front.len() && !(#[trigger] front[i]).pkt.is_response && front[i].src
                    == client {
                let i = choose|i: int|
                    0 <= i < front.len() && !(#[trigger] front[i]).pkt.is_response
                        && front[i].src == client;
                assert(messages[i] == front[i]);
            }
            if exists|i: int|
                0 <= i < messages.len() && !(#[trigger] messages[i]).pkt.is_response
                    && messages[i].src == client {
                let i = choose|i: int|
                    0 <= i < messages.len() && !(#[trigger] messages[i]).pkt.is_response
                        && messages[i].src == client;
                if i < n {
                    assert(front[i] == messages[i]);
                }
            }
            assert(messages[n] == messages.last());
        }
        assert forall|name: Seq<char>| #[trigger] state.names.contains(name) <==> name.len() > 0
            && exists|i: int|
            0 <= i < messages.len() && !(#[trigger] messages[i]).pkt.is_response
                && messages[i].pkt.questions.len() > 0 && messages[i].pkt.questions[0].name
                == name by {
            assert(before.names.contains(name) <==> name.len() > 0 && exists|i: int|
                0 <= i < front.len() && !(#[trigger] front[i]).pkt.is_response
                    && front[i].pkt.questions.len() > 0 && front[i].pkt.questions[0].name
                    == name);
            if exists|i: int|
                0 <= i < front.len() && !(#[trigger] front[i]).pkt.is_response
                    && front[i].pkt.questions.len() > 0 && front[i].pkt.questions[0].name
                    == name {
                let i = choose|i: int|
                    0 <= i < front.len() && !(#[trigger] front[i]).pkt.is_response
                        && front[i].pkt.questions.len() > 0 && front[i].pkt.questions[0].name
                        == name;
                assert(messages[i] == front[i]);
            }
            if exists|i: int|
                0 <= i < messages.len() && !(#[trigger] messages[i]).pkt.is_response
                    && messages[i].pkt.questions.len() > 0
                    && messages[i].pkt.questions[0].name == name {
                let i = choose|i: int|
                    0 <= i < messages.len() && !(#[trigger] messages[i]).pkt.is_response
                        && messages[i].pkt.questions.len() > 0
                        && messages[i].pkt.questions[0].name == name;
                if i < n {
                    assert(front[i] == messages[i]);
                }
            }
            assert(messages[n] == messages.last());
        }
    }
}

/// A time is a number of seconds and a number of microseconds.
pub proof fn law_time_in_microseconds(ts: Timestamp)
    ensures
        ts.at() == 1_000_000 * ts.sec + ts.usec,
{
}

/// The end of an analysis takes away the queries that wait, and nothing else.
pub proof fn law_end_takes_away_queries_only(state: AnalyzerModel)
    ensures
        ({
            let end = state.finalized();
            &&& end.pending.len() == 0
            &&& end.nxdomain == state.nxdomain
            &&& end.ttl_obs == state.ttl_obs
            &&& end.answered == state.answered
            &&& end.clients == state.clients
            &&& end.names == state.names
        }),
{
}

} // verus!
