//! Matching of queries and responses, and detection of anomalies in them.

use vstd::hash_map::StringHashMap;
use vstd::hash_set::StringHashSet;
use vstd::prelude::*;

use crate::answered::{AnsweredTable, Exchange, Transaction};
use crate::dns::{DnsPacket, PacketModel, QType, RCode};
use crate::event::EventModel;
use crate::nxdomain;
use crate::nxdomain::{EntryModel, Link, NxdomainTable, TrackerModel};
use crate::seqs;
use crate::text;
use crate::ttl;
use crate::ttl::TtlObservation;

pub use crate::event::{
    classify_event, DnsEvent, ReportSummary, Severity, TimedEvent, Timestamp,
};

verus! {

/// How long a query may wait for its response, in seconds.
pub const RESPONSE_TIMEOUT_SEC: u64 = 5;

/// So many repetitions of one query are reported.
pub const RETRANSMIT_THRESHOLD: usize = 3;

struct PendingQuery {
    txid: u16,
    ts: Timestamp,
    client: String,
    server: String,
    name: String,
    qtype: String,
    retransmit_count: usize,
    retransmit_reported: bool,
}

/// A query that waits for its response.
pub struct PendingModel {
    pub txid: u16,
    pub ts: Timestamp,
    pub client: Seq<char>,
    pub server: Seq<char>,
    pub name: Seq<char>,
    pub qtype: Seq<char>,
    /// How many times the query has been sent again.
    pub retransmit_count: usize,
    /// Whether that has been reported.
    pub retransmit_reported: bool,
}

impl View for PendingQuery {
    type V = PendingModel;

    closed spec fn view(&self) -> PendingModel {
        PendingModel {
            txid: self.txid,
            ts: self.ts,
            client: self.client@,
            server: self.server@,
            name: self.name@,
            qtype: self.qtype@,
            retransmit_count: self.retransmit_count,
            retransmit_reported: self.retransmit_reported,
        }
    }
}

impl PendingModel {
    /// The exchange that the query belongs to.
    pub open spec fn exchange(self) -> Exchange {
        Exchange { txid: self.txid, client: self.client, server: self.server }
    }

    /// The number of repetitions after one more.
    pub open spec fn next_count(self) -> usize {
        if self.retransmit_count < usize::MAX {
            (self.retransmit_count + 1) as usize
        } else {
            self.retransmit_count
        }
    }

    /// One more repetition is due to be reported.
    pub open spec fn is_retransmit(self) -> bool {
        self.next_count() >= RETRANSMIT_THRESHOLD && !self.retransmit_reported
    }

    /// The query after one more repetition.
    pub open spec fn repeated(self) -> PendingModel {
        PendingModel {
            retransmit_count: self.next_count(),
            retransmit_reported: self.retransmit_reported || self.is_retransmit(),
            ..self
        }
    }

    /// Whether the query has waited too long at `now`.
    pub open spec fn is_overdue(self, now: Timestamp) -> bool {
        now.at() - self.ts.at() >= RESPONSE_TIMEOUT_SEC * 1_000_000
    }

    /// The report that the query got no response.
    pub open spec fn timeout(self) -> EventModel {
        EventModel::QueryTimeout {
            txid: 0,
            client: self.client,
            server: self.server,
            name: self.name,
            qtype: self.qtype,
        }
    }
}

/// Whether a query of this exchange waits for its response.
pub open spec fn is_pending(pending: Seq<PendingModel>, exchange: Exchange) -> bool {
    exists|i: int| 0 <= i < pending.len() && (#[trigger] pending[i]).exchange() == exchange
}

/// The place of the query of this exchange.
pub open spec fn place_of(pending: Seq<PendingModel>, exchange: Exchange) -> int {
    choose|i: int| 0 <= i < pending.len() && (#[trigger] pending[i]).exchange() == exchange
}

/// No two queries belong to the same exchange.
pub open spec fn distinct_exchanges(pending: Seq<PendingModel>) -> bool {
    forall|i: int, j: int|
        0 <= i < j < pending.len() ==> (#[trigger] pending[i]).exchange() != (
        #[trigger] pending[j]).exchange()
}

/// The name that a message asks for: that of its first question.
pub open spec fn asked_name(pkt: PacketModel) -> Seq<char> {
    if pkt.questions.len() > 0 {
        pkt.questions[0].name
    } else {
        Seq::empty()
    }
}

/// The type that a message asks for.
pub open spec fn asked_type(pkt: PacketModel) -> Seq<char> {
    if pkt.questions.len() > 0 {
        pkt.questions[0].qtype.mnemonic()
    } else {
        "?"@
    }
}

/// Whether a message asks for a named record of a type that tunnels use.
pub open spec fn asks_for_tunnel_type(pkt: PacketModel) -> bool {
    &&& pkt.questions.len() > 0
    &&& pkt.questions[0].qtype == QType::NULL || pkt.questions[0].qtype == QType::TXT
    &&& pkt.questions[0].name.len() > 0
}

/// The sign of tunneling in a query from `client`.
pub open spec fn tunneling(pkt: PacketModel, client: Seq<char>, reason: Seq<char>) -> EventModel {
    EventModel::TunnelingIndicator {
        client,
        name: asked_name(pkt),
        qtype: asked_type(pkt),
        reason,
    }
}

/// No event, or one.
pub open spec fn event_if(cond: bool, event: EventModel) -> Seq<EventModel> {
    if cond {
        seq![event]
    } else {
        Seq::empty()
    }
}

/// What an [`Analyzer`] remembers of the messages so far.
#[verifier::ext_equal]
pub struct AnalyzerModel {
    /// The queries that wait for a response, oldest first.
    pub pending: Seq<PendingModel>,
    /// The NXDOMAIN responses of each server to each client.
    pub nxdomain: Map<Link, TrackerModel>,
    /// The range of the times to live of each name.
    pub ttl_obs: Map<Seq<char>, TtlObservation>,
    /// The source of the first answer to each answered transaction.
    pub answered: Map<Transaction, Seq<char>>,
    /// The clients that sent a query.
    pub clients: Set<Seq<char>>,
    /// The names that were asked for.
    pub names: Set<Seq<char>>,
}

impl AnalyzerModel {
    /// Nothing seen yet.
    pub open spec fn empty() -> AnalyzerModel {
        AnalyzerModel {
            pending: Seq::empty(),
            nxdomain: Map::empty(),
            ttl_obs: Map::empty(),
            answered: Map::empty(),
            clients: Set::empty(),
            names: Set::empty(),
        }
    }

    /// What a query from `src` to `dst` gives rise to.
    pub open spec fn query_events(self, pkt: PacketModel, src: Seq<char>, dst: Seq<char>) -> Seq<
        EventModel,
    > {
        let exchange = Exchange { txid: pkt.txid, client: src, server: dst };
        let signs = event_if(pkt.has_long_name(), tunneling(pkt, src, "long_label"@)) + event_if(
            asks_for_tunnel_type(pkt),
            tunneling(pkt, src, "suspicious_qtype"@),
        );
        if is_pending(self.pending, exchange) {
            let query = self.pending[place_of(self.pending, exchange)];
            signs + event_if(
                query.is_retransmit(),
                EventModel::QueryRetransmit {
                    txid: pkt.txid,
                    client: src,
                    name: asked_name(pkt),
                    count: query.next_count() as nat,
                },
            )
        } else {
            signs.push(
                EventModel::QuerySent {
                    txid: pkt.txid,
                    client: src,
                    server: dst,
                    name: asked_name(pkt),
                    qtype: asked_type(pkt),
                },
            )
        }
    }

    /// What is remembered after a query from `src` to `dst`.
    pub open spec fn after_query(
        self,
        pkt: PacketModel,
        src: Seq<char>,
        dst: Seq<char>,
        ts: Timestamp,
    ) -> AnalyzerModel {
        let exchange = Exchange { txid: pkt.txid, client: src, server: dst };
        let place = place_of(self.pending, exchange);
        AnalyzerModel {
            pending: if is_pending(self.pending, exchange) {
                self.pending.update(place, self.pending[place].repeated())
            } else {
                self.pending.push(
                    PendingModel {
                        txid: pkt.txid,
                        ts,
                        client: src,
                        server: dst,
                        name: asked_name(pkt),
                        qtype: asked_type(pkt),
                        retransmit_count: 0,
                        retransmit_reported: false,
                    },
                )
            },
            clients: self.clients.insert(src),
            names: if asked_name(pkt).len() > 0 {
                self.names.insert(asked_name(pkt))
            } else {
                self.names
            },
            ..self
        }
    }

    /// The tracker for the exchange of an NXDOMAIN response, with that response
    /// in it.
    pub open spec fn tracker_with(self, exchange: Exchange, entry: EntryModel) -> TrackerModel {
        nxdomain::tracker_of(self.nxdomain, exchange.link()).with(entry)
    }

    /// What the response to a query that waits gives rise to.
    pub open spec fn answer_events(
        self,
        pkt: PacketModel,
        src: Seq<char>,
        dst: Seq<char>,
        ts: Timestamp,
    ) -> Seq<EventModel> {
        let exchange = Exchange { txid: pkt.txid, client: dst, server: src };
        let query = self.pending[place_of(self.pending, exchange)];
        seq![
            EventModel::ResponseReceived {
                txid: pkt.txid,
                client: dst,
                server: src,
                name: asked_name(pkt),
                qtype: query.qtype,
                rcode: pkt.rcode.mnemonic(),
                answer_count: pkt.answers.len(),
                latency_us: ts.at() - query.ts.at(),
            },
        ] + if pkt.rcode == RCode::NXDomain {
            self.tracker_with(exchange, EntryModel { ts, name: asked_name(pkt) }).report(
                dst,
                src,
                ts,
            )
        } else {
            Seq::empty()
        }
    }

    /// What is remembered after the response to a query that waits.
    pub open spec fn after_answer(
        self,
        pkt: PacketModel,
        src: Seq<char>,
        dst: Seq<char>,
        ts: Timestamp,
    ) -> AnalyzerModel {
        let exchange = Exchange { txid: pkt.txid, client: dst, server: src };
        AnalyzerModel {
            pending: self.pending.remove(place_of(self.pending, exchange)),
            answered: if self.answered.contains_key(exchange.transaction()) {
                self.answered
            } else {
                self.answered.insert(exchange.transaction(), src)
            },
            nxdomain: if pkt.rcode == RCode::NXDomain {
                self.nxdomain.insert(
                    exchange.link(),
                    self.tracker_with(
                        exchange,
                        EntryModel { ts, name: asked_name(pkt) },
                    ).after_report(ts),
                )
            } else {
                self.nxdomain
            },
            ..self
        }
    }

    /// Whether a response from `src` to `dst` belongs to a transaction that has
    /// been answered before, from another source.
    pub open spec fn is_duplicate(self, pkt: PacketModel, src: Seq<char>, dst: Seq<char>) -> bool {
        let transaction = Transaction { txid: pkt.txid, client: dst };
        self.answered.contains_key(transaction) && self.answered[transaction] != src
    }

    /// The report of such a response.
    pub open spec fn duplicate(
        self,
        pkt: PacketModel,
        src: Seq<char>,
        dst: Seq<char>,
    ) -> EventModel {
        EventModel::DuplicateResponse {
            txid: pkt.txid,
            name: asked_name(pkt),
            first_src: self.answered[Transaction { txid: pkt.txid, client: dst }],
            second_src: src,
        }
    }

    /// What a response from `src` to `dst` gives rise to.
    pub open spec fn response_events(
        self,
        pkt: PacketModel,
        src: Seq<char>,
        dst: Seq<char>,
        ts: Timestamp,
    ) -> Seq<EventModel> {
        let exchange = Exchange { txid: pkt.txid, client: dst, server: src };
        event_if(
            pkt.truncated,
            EventModel::TruncatedResponse {
                txid: pkt.txid,
                client: dst,
                server: src,
                name: asked_name(pkt),
            },
        ) + ttl::reports_of(self.ttl_obs, pkt.answers, src) + event_if(
            self.is_duplicate(pkt, src, dst),
            self.duplicate(pkt, src, dst),
        ) + if is_pending(
            self.pending,
            exchange,
        ) {
            self.answer_events(pkt, src, dst, ts)
        } else {
            seq![
                EventModel::UnsolicitedResponse {
                    txid: pkt.txid,
                    src,
                    name: asked_name(pkt),
                    rcode: pkt.rcode.mnemonic(),
                },
            ]
        }
    }

    /// What is remembered after a response from `src` to `dst`.
    pub open spec fn after_response(
        self,
        pkt: PacketModel,
        src: Seq<char>,
        dst: Seq<char>,
        ts: Timestamp,
    ) -> AnalyzerModel {
        let exchange = Exchange { txid: pkt.txid, client: dst, server: src };
        let observed = AnalyzerModel {
            ttl_obs: ttl::seen_after(self.ttl_obs, pkt.answers),
            ..self
        };
        if is_pending(self.pending, exchange) {
            observed.after_answer(pkt, src, dst, ts)
        } else {
            observed
        }
    }

    /// What a message gives rise to.
    pub open spec fn events(
        self,
        pkt: PacketModel,
        src: Seq<char>,
        dst: Seq<char>,
        ts: Timestamp,
    ) -> Seq<EventModel> {
        if pkt.is_response {
            self.response_events(pkt, src, dst, ts)
        } else {
            self.query_events(pkt, src, dst)
        }
    }

    /// What is remembered after a message.
    pub open spec fn after(
        self,
        pkt: PacketModel,
        src: Seq<char>,
        dst: Seq<char>,
        ts: Timestamp,
    ) -> AnalyzerModel {
        if pkt.is_response {
            self.after_response(pkt, src, dst, ts)
        } else {
            self.after_query(pkt, src, dst, ts)
        }
    }

    /// The reports of the queries that have waited too long at `now`.
    pub open spec fn timeouts(self, now: Timestamp) -> Seq<EventModel> {
        self.pending.filter(|query: PendingModel| query.is_overdue(now)).map_values(
            |query: PendingModel| query.timeout(),
        )
    }

    /// What is remembered once no query waits any longer.
    pub open spec fn finalized(self) -> AnalyzerModel {
        AnalyzerModel { pending: Seq::empty(), ..self }
    }
}

pub proof fn lemma_place(pending: Seq<PendingModel>, exchange: Exchange, i: int)
    requires
        distinct_exchanges(pending),
        0 <= i < pending.len(),
        pending[i].exchange() == exchange,
    ensures
        is_pending(pending, exchange),
        place_of(pending, exchange) == i,
{
    let j = place_of(pending, exchange);
    assert(pending[j].exchange() == exchange);
}

fn push_event(events: &mut Vec<DnsEvent>, event: DnsEvent)
    ensures
        seqs::views(final(events)@) == seqs::views(old(events)@).push(event@),
{
    proof {
        seqs::lemma_views_push(events@, event);
    }
    events.push(event);
}

/// Follows DNS messages in the order of their capture.
pub struct Analyzer {
    pending: Vec<PendingQuery>,
    nxdomain: NxdomainTable,
    ttl_obs: StringHashMap<TtlObservation>,
    answered: AnsweredTable,
    clients: StringHashSet,
    names: StringHashSet,
}

impl View for Analyzer {
    type V = AnalyzerModel;

    closed spec fn view(&self) -> AnalyzerModel {
        AnalyzerModel {
            pending: seqs::views(self.pending@),
            nxdomain: self.nxdomain@,
            ttl_obs: self.ttl_obs@,
            answered: self.answered@,
            clients: self.clients@,
            names: self.names@,
        }
    }
}

impl Analyzer {
    /// No two waiting queries belong to the same exchange, and no two trackers are
    /// for the same client and server.
    pub closed spec fn wf(&self) -> bool {
        &&& distinct_exchanges(self@.pending)
        &&& self.nxdomain.wf()
    }

    /// An analyzer that has seen nothing yet.
    pub fn new() -> (res: Self)
        ensures
            res.wf(),
            res@ == AnalyzerModel::empty(),
    {
        let res = Analyzer {
            pending: Vec::new(),
            nxdomain: NxdomainTable::new(),
            ttl_obs: StringHashMap::new(),
            answered: AnsweredTable::new(),
            clients: StringHashSet::new(),
            names: StringHashSet::new(),
        };
        assert(res@ =~= AnalyzerModel::empty());
        res
    }

    fn position(&self, txid: u16, client: &str, server: &str) -> (res: Option<usize>)
        requires
            self.wf(),
        ensures
            ({
                let exchange = Exchange { txid, client: client@, server: server@ };
                match res {
                    Some(i) => {
                        &&& is_pending(self@.pending, exchange)
                        &&& i == place_of(self@.pending, exchange)
                        &&& i < self.pending.len()
                    },
                    None => !is_pending(self@.pending, exchange),
                }
            }),
    {
        let ghost exchange = Exchange { txid, client: client@, server: server@ };
        let mut i: usize = 0;
        while i < self.pending.len()
            invariant
                i <= self.pending.len(),
                self.wf(),
                exchange == (Exchange { txid, client: client@, server: server@ }),
                forall|j: int| 0 <= j < i ==> (#[trigger] self@.pending[j]).exchange() != exchange,
            decreases self.pending.len() - i,
        {
            let query = &self.pending[i];
            assert(self@.pending[i as int] == query@);
            if query.txid == txid && text::same_text(query.client.as_str(), client)
                && text::same_text(query.server.as_str(), server) {
                proof {
                    lemma_place(self@.pending, exchange, i as int);
                }
                return Some(i);
            }
            i = i + 1;
        }
        None
    }

    /// Takes one message from `src` to `dst`, sent at `ts`, and tells what it
    /// gives rise to.
    pub fn process(&mut self, pkt: &DnsPacket, src: &str, dst: &str, ts: Timestamp) -> (res: Vec<
        DnsEvent,
    >)
        requires
            old(self).wf(),
        ensures
            final(self).wf(),
            seqs::views(res@) == old(self)@.events(pkt@, src@, dst@, ts),
            final(self)@ == old(self)@.after(pkt@, src@, dst@, ts),
    {
        let mut events: Vec<DnsEvent> = Vec::new();
        if pkt.is_response {
            self.handle_response(pkt, src, dst, ts, &mut events);
        } else {
            self.handle_query(pkt, src, dst, ts, &mut events);
        }
        proof {
            let none = seqs::views(Seq::<DnsEvent>::empty());
            assert(none =~= Seq::empty());
            assert(seqs::views(events@) =~= old(self)@.events(pkt@, src@, dst@, ts));
        }
        events
    }

    /// Takes a query from `src` to `dst`, sent at `ts`, and adds what it gives
    /// rise to.
    pub fn handle_query(
        &mut self,
        pkt: &DnsPacket,
        src: &str,
        dst: &str,
        ts: Timestamp,
        events: &mut Vec<DnsEvent>,
    )
        requires
            old(self).wf(),
        ensures
            final(self).wf(),
            seqs::views(final(events)@) == seqs::views(old(events)@) + old(self)@.query_events(
                pkt@,
                src@,
                dst@,
            ),
            final(self)@ == old(self)@.after_query(pkt@, src@, dst@, ts),
    {
        let ghost before = seqs::views(events@);
        let name: String = match pkt.first_question_name() {
            Some(name) => name.to_string(),
            None => String::new(),
        };
        assert(name@ =~= asked_name(pkt@));
        let qtype: &str = match pkt.first_qtype() {
            Some(qtype) => qtype.as_str(),
            None => "?",
        };
        let named: bool = !text::same_text(name.as_str(), "");
        proof {
            reveal_strlit("");
            assert(named == (name@.len() > 0)) by {
                if name@.len() == 0 {
                    assert(name@ =~= ""@);
                }
            }
        }
        self.clients.insert(src.to_string());
        if named {
            self.names.insert(name.clone());
        }
        if pkt.has_long_labels() {
            push_event(
                events,
                DnsEvent::TunnelingIndicator {
                    client: src.to_string(),
                    name: name.clone(),
                    qtype: qtype.to_string(),
                    reason: "long_label".to_string(),
                },
            );
        }
        let tunnel_type: bool = match pkt.first_qtype() {
            Some(qtype) => *qtype == QType::NULL || *qtype == QType::TXT,
            None => false,
        };
        if tunnel_type && named {
            push_event(
                events,
                DnsEvent::TunnelingIndicator {
                    client: src.to_string(),
                    name: name.clone(),
                    qtype: qtype.to_string(),
                    reason: "suspicious_qtype".to_string(),
                },
            );
        }
        match self.position(pkt.txid, src, dst) {
            Some(i) => {
                let ghost waiting = self@.pending;
                let count: usize = self.pending[i].retransmit_count.saturating_add(1);
                self.pending[i].retransmit_count = count;
                if count >= RETRANSMIT_THRESHOLD && !self.pending[i].retransmit_reported {
                    self.pending[i].retransmit_reported = true;
                    push_event(
                        events,
                        DnsEvent::QueryRetransmit {
                            txid: pkt.txid,
                            client: src.to_string(),
                            name,
                            count,
                        },
                    );
                }
                assert(self@.pending =~= waiting.update(i as int, waiting[i as int].repeated()));
            },
            None => {
                let query = PendingQuery {
                    txid: pkt.txid,
                    ts,
                    client: src.to_string(),
                    server: dst.to_string(),
                    name: name.clone(),
                    qtype: qtype.to_string(),
                    retransmit_count: 0,
                    retransmit_reported: false,
                };
                proof {
                    seqs::lemma_views_push(self.pending@, query);
                }
                self.pending.push(query);
                push_event(
                    events,
                    DnsEvent::QuerySent {
                        txid: pkt.txid,
                        client: src.to_string(),
                        server: dst.to_string(),
                        name,
                        qtype: qtype.to_string(),
                    },
                );
            },
        }
        assert(self@ =~= old(self)@.after_query(pkt@, src@, dst@, ts));
        assert(seqs::views(events@) =~= before + old(self)@.query_events(pkt@, src@, dst@));
    }

    fn handle_answer(
        &mut self,
        pkt: &DnsPacket,
        name: String,
        src: &str,
        dst: &str,
        ts: Timestamp,
        place: usize,
        events: &mut Vec<DnsEvent>,
    )
        requires
            old(self).wf(),
            name@ == asked_name(pkt@),
            is_pending(
                old(self)@.pending,
                (Exchange { txid: pkt.txid, client: dst@, server: src@ }),
            ),
            place == place_of(
                old(self)@.pending,
                (Exchange { txid: pkt.txid, client: dst@, server: src@ }),
            ),
        ensures
            final(self).wf(),
            seqs::views(final(events)@) == seqs::views(old(events)@) + old(self)@.answer_events(
                pkt@,
                src@,
                dst@,
                ts,
            ),
            final(self)@ == old(self)@.after_answer(pkt@, src@, dst@, ts),
    {
        let ghost before = seqs::views(events@);
        let query: PendingQuery = self.pending.remove(place);
        assert(query@ == old(self)@.pending[place as int]);
        let latency_us: i64 = ts.micros() - query.ts.micros();
        let first: bool = self.answered.first_src(pkt.txid, dst).is_none();
        if first {
            self.answered.insert(pkt.txid, dst, src);
        }
        push_event(
            events,
            DnsEvent::ResponseReceived {
                txid: pkt.txid,
                client: dst.to_string(),
                server: src.to_string(),
                name: name.clone(),
                qtype: query.qtype,
                rcode: pkt.rcode.as_str().to_string(),
                answer_count: pkt.answers.len(),
                latency_us,
            },
        );
        if pkt.rcode == RCode::NXDomain {
            let mut reports: Vec<DnsEvent> = self.nxdomain.note(dst, src, ts, name);
            proof {
                seqs::lemma_views_append(events@, reports@);
            }
            events.append(&mut reports);
        }
        assert(self@.pending =~= old(self)@.pending.remove(place as int));
        assert(self@ =~= old(self)@.after_answer(pkt@, src@, dst@, ts));
        assert(seqs::views(events@) =~= before + old(self)@.answer_events(pkt@, src@, dst@, ts));
    }

    fn report_duplicate(
        &self,
        pkt: &DnsPacket,
        name: &str,
        src: &str,
        dst: &str,
        events: &mut Vec<DnsEvent>,
    )
        requires
            name@ == asked_name(pkt@),
        ensures
            seqs::views(final(events)@) == seqs::views(old(events)@) + event_if(
                self@.is_duplicate(pkt@, src@, dst@),
                self@.duplicate(pkt@, src@, dst@),
            ),
    {
        let ghost before = seqs::views(events@);
        match self.answered.first_src(pkt.txid, dst) {
            Some(first_src) => {
                if !text::same_text(first_src, src) {
                    push_event(
                        events,
                        DnsEvent::DuplicateResponse {
                            txid: pkt.txid,
                            name: name.to_string(),
                            first_src: first_src.to_string(),
                            second_src: src.to_string(),
                        },
                    );
                }
            },
            None => {},
        }
        assert(seqs::views(events@) =~= before + event_if(
            self@.is_duplicate(pkt@, src@, dst@),
            self@.duplicate(pkt@, src@, dst@),
        ));
    }

    /// Takes a response from `src` to `dst`, sent at `ts`, and adds what it gives
    /// rise to.
    #[verifier::rlimit(40)]
    pub fn handle_response(
        &mut self,
        pkt: &DnsPacket,
        src: &str,
        dst: &str,
        ts: Timestamp,
        events: &mut Vec<DnsEvent>,
    )
        requires
            old(self).wf(),
        ensures
            final(self).wf(),
            seqs::views(final(events)@) == seqs::views(old(events)@) + old(self)@.response_events(
                pkt@,
                src@,
                dst@,
                ts,
            ),
            final(self)@ == old(self)@.after_response(pkt@, src@, dst@, ts),
    {
        let ghost before = seqs::views(events@);
        let name: String = match pkt.first_question_name() {
            Some(name) => name.to_string(),
            None => String::new(),
        };
        assert(name@ =~= asked_name(pkt@));
        if pkt.truncated {
            push_event(
                events,
                DnsEvent::TruncatedResponse {
                    txid: pkt.txid,
                    client: dst.to_string(),
                    server: src.to_string(),
                    name: name.clone(),
                },
            );
        }
        ttl::observe_records(&mut self.ttl_obs, &pkt.answers, src, events);
        self.report_duplicate(pkt, name.as_str(), src, dst, events);
        match self.position(pkt.txid, dst, src) {
            Some(i) => {
                self.handle_answer(pkt, name, src, dst, ts, i, events);
            },
            None => {
                push_event(
                    events,
                    DnsEvent::UnsolicitedResponse {
                        txid: pkt.txid,
                        src: src.to_string(),
                        name,
                        rcode: pkt.rcode.as_str().to_string(),
                    },
                );
            },
        }
        assert(self@ =~= old(self)@.after_response(pkt@, src@, dst@, ts));
        assert(seqs::views(events@) =~= before + old(self)@.response_events(
            pkt@,
            src@,
            dst@,
            ts,
        ));
    }

    /// Ends the analysis at `last_ts`: no query waits any longer, and those that
    /// have waited too long are reported.
    pub fn finalize(&mut self, last_ts: Timestamp) -> (res: Vec<DnsEvent>)
        requires
            old(self).wf(),
        ensures
            final(self).wf(),
            seqs::views(res@) == old(self)@.timeouts(last_ts),
            final(self)@ == old(self)@.finalized(),
    {
        let ghost all = self@.pending;
        let ghost keep = |query: PendingModel| query.is_overdue(last_ts);
        let ghost report = |query: PendingModel| query.timeout();
        let mut waiting: Vec<PendingQuery> = Vec::new();
        std::mem::swap(&mut waiting, &mut self.pending);
        assert(all.take(0).filter(keep).map_values(report) =~= Seq::empty()) by {
            reveal(Seq::filter);
        }
        let mut events: Vec<DnsEvent> = Vec::new();
        let mut i: usize = 0;
        while i < waiting.len()
            invariant
                i <= waiting.len(),
                all == seqs::views(waiting@),
                keep == |query: PendingModel| query.is_overdue(last_ts),
                report == |query: PendingModel| query.timeout(),
                seqs::views(events@) == all.take(i as int).filter(keep).map_values(report),
            decreases waiting.len() - i,
        {
            let query = &waiting[i];
            proof {
                let head = all.take(i as int);
                assert(all.take(i + 1) =~= head.push(query@));
                seqs::lemma_filter_push(head, query@, keep);
                assert(head.filter(keep).push(query@).map_values(report) =~= head.filter(
                    keep,
                ).map_values(report).push(report(query@)));
            }
            if last_ts.micros() - query.ts.micros() >= RESPONSE_TIMEOUT_SEC as i64 * 1_000_000 {
                push_event(
                    &mut events,
                    DnsEvent::QueryTimeout {
                        txid: 0,
                        client: query.client.clone(),
                        server: query.server.clone(),
                        name: query.name.clone(),
                        qtype: query.qtype.clone(),
                    },
                );
            }
            i = i + 1;
        }
        assert(all.take(i as int) =~= all);
        assert(self@ =~= old(self)@.finalized());
        events
    }

    /// The number of clients that sent a query.
    pub fn unique_clients(&self) -> (res: usize)
        ensures
            res == self@.clients.len(),
    {
        self.clients.len()
    }

    /// The number of names that were asked for.
    pub fn unique_names(&self) -> (res: usize)
        ensures
            res == self@.names.len(),
    {
        self.names.len()
    }
}

} // verus!
