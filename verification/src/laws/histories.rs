//! Laws of whole analyses: what all messages of a capture together give rise to.

use vstd::prelude::*;

use crate::analyzer;
use crate::analyzer::AnalyzerModel;
use crate::event::EventModel;
use crate::laws::anomalies;
use crate::laws::counting;
use crate::laws::exchanges;
use crate::laws::exchanges::Seen;
use crate::nxdomain;
use crate::nxdomain::{EntryModel, Link};
use crate::seqs;
use crate::ttl;

verus! {

/// What is remembered after the messages of a capture.
pub open spec fn state_after(messages: Seq<Seen>) -> AnalyzerModel {
    exchanges::after_all(AnalyzerModel::empty(), messages)
}

/// What a message gives rise to in an analysis.
pub open spec fn events_at(state: AnalyzerModel, m: Seen) -> Seq<EventModel> {
    state.events(m.pkt, m.src, m.dst, m.ts)
}

/// What the messages of a capture give rise to.
pub open spec fn events_after(messages: Seq<Seen>) -> Seq<EventModel>
    decreases messages.len(),
{
    if messages.len() == 0 {
        Seq::empty()
    } else {
        events_after(messages.drop_last()) + events_at(
            state_after(messages.drop_last()),
            messages.last(),
        )
    }
}

/// Whether one of the events has a property.
pub open spec fn some_event(events: Seq<EventModel>, p: spec_fn(EventModel) -> bool) -> bool {
    exists|i: int| 0 <= i < events.len() && p(#[trigger] events[i])
}

pub proof fn lemma_event_stays(messages: Seq<Seen>, p: spec_fn(EventModel) -> bool)
    requires
        messages.len() > 0,
        some_event(events_after(messages.drop_last()), p) || some_event(
            events_at(state_after(messages.drop_last()), messages.last()),
            p,
        ),
    ensures
        some_event(events_after(messages), p),
{
    let front = events_after(messages.drop_last());
    let last = events_at(state_after(messages.drop_last()), messages.last());
    let all = events_after(messages);
    if some_event(front, p) {
        let i = choose|i: int| 0 <= i < front.len() && p(#[trigger] front[i]);
        assert(all[i] == front[i]);
    } else {
        let i = choose|i: int| 0 <= i < last.len() && p(#[trigger] last[i]);
        assert(all[front.len() + i] == last[i]);
    }
}

pub proof fn lemma_counted_event(events: Seq<EventModel>, p: spec_fn(EventModel) -> bool)
    requires
        counting::count(events, p) > 0,
    ensures
        some_event(events, p),
{
    events.lemma_filter_pred(p, 0);
    events.lemma_filter_contains_rev(p, events.filter(p)[0]);
    let i = choose|i: int| 0 <= i < events.len() && events[i] == events.filter(p)[0];
    assert(p(events[i]));
}

/// The NXDOMAIN responses of a server to the queries of a client.
pub open spec fn nxdomain_answers(messages: Seq<Seen>, link: Link) -> Seq<EntryModel>
    decreases messages.len(),
{
    if messages.len() == 0 {
        Seq::empty()
    } else {
        let front = messages.drop_last();
        let m = messages.last();
        if exchanges::is_nxdomain_answer(state_after(front), m) && m.exchange().link() == link {
            nxdomain_answers(front, link).push(
                EntryModel { ts: m.ts, name: exchanges::name_in(m.pkt) },
            )
        } else {
            nxdomain_answers(front, link)
        }
    }
}

/// Whether an event reports a flood to a client from a server.
pub open spec fn is_flood_of(event: EventModel, link: Link) -> bool {
    event is NxdomainFlood && event->NxdomainFlood_client == link.client
        && event->NxdomainFlood_server == link.server
}

/// Whether an event reports a slow probe by a client at a server.
pub open spec fn is_probe_of(event: EventModel, link: Link) -> bool {
    event is SlowNxdomainProbe && event->SlowNxdomainProbe_client == link.client
        && event->SlowNxdomainProbe_server == link.server
}

/// Over all messages, the range of a name is reported once if it has become wide,
/// and otherwise not at all.
pub proof fn law_wide_range_is_reported_once(messages: Seq<Seen>, name: Seq<char>)
    ensures
        counting::count(
            events_after(messages),
            |event: EventModel| anomalies::reports_range_of(event, name),
        ) == (if anomalies::is_wide(state_after(messages).ttl_obs, name) {
            1nat
        } else {
            0nat
        }),
    decreases messages.len(),
{
    let p = |event: EventModel| anomalies::reports_range_of(event, name);
    counting::lemma_count_empty(p);
    if messages.len() > 0 {
        let front = messages.drop_last();
        let m = messages.last();
        let state = state_after(front);
        law_wide_range_is_reported_once(front, name);
        exchanges::law_every_state_is_coherent(front);
        exchanges::law_every_state_is_coherent(messages);
        assert(state.ttl_obs.contains_key(name) ==> exchanges::coherent_range(
            state.ttl_obs[name],
        ));
        let next = state_after(messages).ttl_obs;
        assert(next.contains_key(name) ==> exchanges::coherent_range(next[name]));
        counting::lemma_count_concat(events_after(front), events_at(state, m), p);
        if m.pkt.is_response {
            exchanges::lemma_count_response_parts(state, m, p);
            anomalies::law_wide_range_is_reported_once(
                state.ttl_obs,
                m.pkt.answers,
                m.src,
                name,
            );
            counting::lemma_count_none(exchanges::nxdomain_reports(state, m), p);
        } else {
            exchanges::lemma_count_query_events(state, m, p);
        }
    }
}

/// Over all messages, the two sources of every reported duplicate differ.
pub proof fn law_duplicate_sources_differ(messages: Seq<Seen>, i: int)
    requires
        0 <= i < events_after(messages).len(),
        events_after(messages)[i] is DuplicateResponse,
    ensures
        ({
            let event = events_after(messages)[i];
            event->DuplicateResponse_first_src != event->DuplicateResponse_second_src
        }),
    decreases messages.len(),
{
    let front = events_after(messages.drop_last());
    if i < front.len() {
        law_duplicate_sources_differ(messages.drop_last(), i);
    } else {
        exchanges::law_duplicate_sources_differ(
            state_after(messages.drop_last()),
            messages.last(),
            i - front.len(),
        );
    }
}

pub proof fn lemma_tracker(messages: Seq<Seen>, link: Link)
    ensures
        nxdomain::tracker_of(state_after(messages).nxdomain, link) == anomalies::tracker_after(
            nxdomain_answers(messages, link),
        ),
    decreases messages.len(),
{
    if messages.len() > 0 {
        let front = messages.drop_last();
        let m = messages.last();
        lemma_tracker(front, link);
        if exchanges::is_nxdomain_answer(state_after(front), m) && m.exchange().link() == link {
            let entry = EntryModel { ts: m.ts, name: exchanges::name_in(m.pkt) };
            let entries = nxdomain_answers(front, link);
            assert(entries.push(entry).drop_last() =~= entries);
        }
    }
}

/// What the last message gives rise to, if it is an NXDOMAIN response of the server
/// to the client, is the report due on all of these responses; otherwise nothing of
/// them is reported.
proof fn lemma_last_reports(
    messages: Seq<Seen>,
    link: Link,
    p: spec_fn(EventModel) -> bool,
)
    requires
        messages.len() > 0,
        forall|event: EventModel| #[trigger]
            p(event) ==> is_flood_of(event, link) || is_probe_of(event, link),
    ensures
        ({
            let state = state_after(messages.drop_last());
            let m = messages.last();
            let events = events_at(state, m);
            let answers = nxdomain_answers(messages, link);
            let due = exchanges::is_nxdomain_answer(state, m) && m.exchange().link() == link;
            let report = anomalies::before_last_report(answers).report(
                link.client,
                link.server,
                answers.last().ts,
            );
            &&& due ==> {
                &&& answers.drop_last() == nxdomain_answers(messages.drop_last(), link)
                &&& answers.len() == nxdomain_answers(messages.drop_last(), link).len() + 1
                &&& counting::count(events, p) == counting::count(report, p)
                &&& forall|i: int|
                    0 <= i < events.len() && p(#[trigger] events[i]) ==> report.contains(
                        events[i],
                    )
            }
            &&& !due ==> {
                &&& answers == nxdomain_answers(messages.drop_last(), link)
                &&& counting::count(events, p) == 0
                &&& forall|i: int| 0 <= i < events.len() ==> !p(#[trigger] events[i])
            }
        }),
{
    let front = messages.drop_last();
    let state = state_after(front);
    let m = messages.last();
    let events = events_at(state, m);
    let answers = nxdomain_answers(messages, link);
    if m.pkt.is_response {
        exchanges::lemma_count_response_parts(state, m, p);
        anomalies::law_reported_range_is_wide(state.ttl_obs, m.pkt.answers, m.src);
        counting::lemma_count_none(
            ttl::reports_of(state.ttl_obs, m.pkt.answers, m.src),
            p,
        );
    } else {
        exchanges::lemma_count_query_events(state, m, p);
    }
    let last = exchanges::nxdomain_reports(state, m);
    if exchanges::is_nxdomain_answer(state, m) && m.exchange().link() == link {
        lemma_tracker(front, link);
        let entries = nxdomain_answers(front, link);
        assert(answers.drop_last() =~= entries);
        let report = anomalies::before_last_report(answers).report(
            link.client,
            link.server,
            answers.last().ts,
        );
        assert(last == report);
        let q = |event: EventModel| p(event) && !report.contains(event);
        exchanges::lemma_count_response_parts(state, m, q);
        counting::lemma_count_none(ttl::reports_of(state.ttl_obs, m.pkt.answers, m.src), q);
        assert forall|i: int| 0 <= i < report.len() implies !q(#[trigger] report[i]) by {
            assert(report.contains(report[i]));
        }
        counting::lemma_count_none(report, q);
        assert forall|i: int|
            0 <= i < events.len() && p(#[trigger] events[i]) implies report.contains(events[i]) by {
            if q(events[i]) {
                events.lemma_filter_contains(q, i);
            }
        }
    } else {
        counting::lemma_count_none(last, p);
        assert forall|i: int| 0 <= i < events.len() implies !p(#[trigger] events[i]) by {
            if p(events[i]) {
                events.lemma_filter_contains(p, i);
            }
        }
    }
}

/// The names that a slow probe is reported with: those of the responses that
/// reached the threshold.
pub open spec fn first_names(answers: Seq<EntryModel>) -> Seq<Seq<char>> {
    nxdomain::names_of(seqs::at_most(answers, 5))
}

/// The report of a slow probe.
pub open spec fn probe_of(answers: Seq<EntryModel>, link: Link) -> EventModel {
    EventModel::SlowNxdomainProbe {
        client: link.client,
        server: link.server,
        count: 5,
        names: first_names(answers),
    }
}

/// Over all messages, a slow probe of a client at a server is reported once if
/// their NXDOMAIN responses have reached the threshold, and otherwise not at all;
/// the report counts and names the responses that reached it.
pub proof fn law_probe_is_reported_once(messages: Seq<Seen>, link: Link)
    ensures
        ({
            let heard = events_after(messages);
            let answers = nxdomain_answers(messages, link);
            &&& counting::count(heard, |event: EventModel| is_probe_of(event, link)) == (
            if answers.len() >= 5 {
                1nat
            } else {
                0nat
            })
            &&& forall|i: int|
                0 <= i < heard.len() && is_probe_of(#[trigger] heard[i], link) ==> heard[i]
                    == probe_of(answers, link)
        }),
    decreases messages.len(),
{
    let p = |event: EventModel| is_probe_of(event, link);
    counting::lemma_count_empty(p);
    if messages.len() > 0 {
        let front = messages.drop_last();
        let before = events_after(front);
        let state = state_after(front);
        let m = messages.last();
        let new = events_at(state, m);
        let heard = events_after(messages);
        let answers = nxdomain_answers(messages, link);
        let old_answers = nxdomain_answers(front, link);
        law_probe_is_reported_once(front, link);
        lemma_last_reports(messages, link, p);
        counting::lemma_count_concat(before, new, p);
        let due = exchanges::is_nxdomain_answer(state, m) && m.exchange().link() == link;
        if due {
            let now = answers.last().ts;
            let tracker = anomalies::before_last_report(answers);
            let report = tracker.report(link.client, link.server, now);
            anomalies::law_slow_probe_is_reported_at_threshold(answers);
            anomalies::lemma_tracker_after(answers.drop_last());
            assert(tracker.entries =~= answers);
            exchanges::lemma_recent_len(tracker, now);
            counting::lemma_count_empty(p);
            if report.len() > 0 {
                assert(report =~= seq![report[0]]);
                counting::lemma_count_one(report[0], p);
            }
        }
        assert forall|i: int| 0 <= i < heard.len() && is_probe_of(
            #[trigger] heard[i],
            link,
        ) implies heard[i] == probe_of(answers, link) by {
            if i < before.len() {
                assert(heard[i] == before[i]);
                assert(p(before[i]));
                before.lemma_filter_contains(p, i);
                assert(old_answers.len() >= 5);
                if due {
                    assert(seqs::at_most(
                        answers,
                        5,
                    ) =~= seqs::at_most(
                        answers.drop_last(),
                        5,
                    ));
                }
            } else {
                assert(heard[i] == new[i - before.len()]);
                assert(p(new[i - before.len()]));
            }
        }
    }
}

/// Over all messages, a flood from a server to a client is reported once if as many
/// of their NXDOMAIN responses as the threshold have come in one window, and
/// otherwise not at all; the report counts the responses in the first such window
/// and names the first of them.
pub proof fn law_flood_is_reported_once(messages: Seq<Seen>, link: Link)
    ensures
        ({
            let heard = events_after(messages);
            let answers = nxdomain_answers(messages, link);
            &&& counting::count(heard, |event: EventModel| is_flood_of(event, link)) == (
            if exists|k: int| anomalies::floods_at(answers, k) {
                1nat
            } else {
                0nat
            })
            &&& forall|i: int|
                0 <= i < heard.len() && is_flood_of(#[trigger] heard[i], link) ==> exists|k: int|
                    #[trigger] anomalies::is_first_flood(answers, k) && heard[i]
                        == anomalies::flood_of(answers, k, link)
        }),
    decreases messages.len(),
{
    let p = |event: EventModel| is_flood_of(event, link);
    counting::lemma_count_empty(p);
    if messages.len() == 0 {
        assert forall|k: int| !anomalies::floods_at(nxdomain_answers(messages, link), k) by {}
    } else {
        let front = messages.drop_last();
        let before = events_after(front);
        let state = state_after(front);
        let m = messages.last();
        let new = events_at(state, m);
        let heard = events_after(messages);
        let answers = nxdomain_answers(messages, link);
        let old_answers = nxdomain_answers(front, link);
        law_flood_is_reported_once(front, link);
        lemma_last_reports(messages, link, p);
        counting::lemma_count_concat(before, new, p);
        let due = exchanges::is_nxdomain_answer(state, m) && m.exchange().link() == link;
        let n = answers.len() as int;
        if due {
            let now = answers.last().ts;
            let tracker = anomalies::before_last_report(answers);
            let report = tracker.report(link.client, link.server, now);
            anomalies::lemma_flood_reported(old_answers);
            anomalies::lemma_floods_grow(answers);
            anomalies::lemma_tracker_after(old_answers);
            assert(tracker.entries =~= answers);
            assert(answers.take(n) =~= answers);
            if report.len() > 0 {
                assert(report =~= seq![report[0]]);
                counting::lemma_count_one(report[0], p);
            }
            if tracker.is_flood(now) {
                assert(anomalies::floods_at(answers, n));
                assert(anomalies::is_first_flood(answers, n));
                assert(report[0] == anomalies::flood_of(answers, n, link));
            } else if exists|k: int| anomalies::floods_at(answers, k) {
                let k = choose|k: int| anomalies::floods_at(answers, k);
                if k < n {
                    assert(anomalies::floods_at(old_answers, k));
                } else {
                    assert(tracker.flood_reported);
                }
            }
            if exists|k: int| anomalies::floods_at(old_answers, k) {
                let k = choose|k: int| anomalies::floods_at(old_answers, k);
                assert(anomalies::floods_at(answers, k));
            }
        }
        assert forall|i: int| 0 <= i < heard.len() && is_flood_of(
            #[trigger] heard[i],
            link,
        ) implies exists|k: int| #[trigger]
            anomalies::is_first_flood(answers, k) && heard[i] == anomalies::flood_of(
            answers,
            k,
            link,
        ) by {
            if i < before.len() {
                assert(heard[i] == before[i]);
                let k = choose|k: int| #[trigger]
                    anomalies::is_first_flood(old_answers, k) && before[i]
                        == anomalies::flood_of(old_answers, k, link);
                if due {
                    anomalies::lemma_first_flood_stays(answers, k, link);
                }
                assert(anomalies::is_first_flood(answers, k));
            } else {
                assert(heard[i] == new[i - before.len()]);
                assert(p(new[i - before.len()]));
                assert(anomalies::is_first_flood(answers, n));
            }
        }
    }
}

} // verus!
