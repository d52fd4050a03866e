//! Laws of detection: what a capture holds is found in its report.

use vstd::prelude::*;

use crate::analyzer;
use crate::analyzer::AnalyzerModel;
use crate::answered::{Exchange, Transaction};
use crate::dns::RecordModel;
use crate::domain;
use crate::event::{EventModel, TimedModel};
use crate::laws::anomalies;
use crate::laws::captures;
use crate::laws::causes;
use crate::laws::exchanges;
use crate::laws::exchanges::Seen;
use crate::laws::histories;
use crate::nxdomain;
use crate::nxdomain::Link;
use crate::report;
use crate::report::FrameModel;
use crate::root_cause;
use crate::root_cause::RootCauseKind;
use crate::seqs;
use crate::ttl;

verus! {

proof fn lemma_events_of_messages(frames: Seq<FrameModel>)
    ensures
        report::after_frames(frames).analyzer == histories::state_after(
            captures::messages_of(frames),
        ),
        report::after_frames(frames).events.map_values(|te: TimedModel| te.event)
            == histories::events_after(captures::messages_of(frames)),
    decreases frames.len(),
{
    let event = |te: TimedModel| te.event;
    let all = report::after_frames(frames).events.map_values(event);
    if frames.len() == 0 {
        assert(all =~= Seq::empty());
    } else {
        let front = frames.drop_last();
        lemma_events_of_messages(front);
        let start = report::after_frames(front);
        if report::message_in(frames.last().data) is Some {
            let m = captures::message_of(frames.last());
            let messages = captures::messages_of(front);
            assert(messages.push(m).drop_last() =~= messages);
            assert(all =~= start.events.map_values(event) + histories::events_at(
                start.analyzer,
                m,
            ));
        }
    }
}

proof fn lemma_event_has_chain(frames: Seq<FrameModel>, kind: RootCauseKind)
    requires
        kind != RootCauseKind::ServerUnreachable,
        histories::some_event(
            histories::events_after(captures::messages_of(frames)),
            |event: EventModel| kind.is_shown_by(event),
        ),
    ensures
        causes::has_chain(report::report_of(frames).root_cause.chains, kind),
{
    lemma_events_of_messages(frames);
    let heard = histories::events_after(captures::messages_of(frames));
    let i = choose|i: int| 0 <= i < heard.len() && kind.is_shown_by(#[trigger] heard[i]);
    let done = report::after_frames(frames).events;
    let all = report::events_of(frames);
    assert(done.map_values(|te: TimedModel| te.event)[i] == done[i].event);
    assert(all[i] == done[i]);
    causes::lemma_shown_once(kind, all, i);
    causes::law_chain_for_every_cause_with_evidence(kind, all);
}

/// A query for a long name, or for a named record of a type that tunnels use, is
/// found to be tunneling.
pub proof fn law_tunneling_is_detected(frames: Seq<FrameModel>, i: int)
    requires
        ({
            let messages = captures::messages_of(frames);
            &&& 0 <= i < messages.len()
            &&& !messages[i].pkt.is_response
            &&& messages[i].pkt.has_long_name() || exchanges::asks_for_data(messages[i].pkt)
        }),
    ensures
        causes::has_chain(
            report::report_of(frames).root_cause.chains,
            RootCauseKind::DnsTunneling,
        ),
        report::report_of(frames).root_cause.has_critical,
{
    let messages = captures::messages_of(frames);
    let p = |event: EventModel| event is TunnelingIndicator;
    lemma_tunneling(messages, i);
    let heard = histories::events_after(messages);
    let k = choose|k: int| 0 <= k < heard.len() && p(#[trigger] heard[k]);
    let q = |event: EventModel| RootCauseKind::DnsTunneling.is_shown_by(event);
    assert(q(heard[k]));
    lemma_event_has_chain(frames, RootCauseKind::DnsTunneling);
    lemma_critical(frames, RootCauseKind::DnsTunneling);
}

proof fn lemma_tunneling(messages: Seq<Seen>, i: int)
    requires
        0 <= i < messages.len(),
        !messages[i].pkt.is_response,
        messages[i].pkt.has_long_name() || exchanges::asks_for_data(messages[i].pkt),
    ensures
        histories::some_event(
            histories::events_after(messages),
            |event: EventModel| event is TunnelingIndicator,
        ),
    decreases messages.len(),
{
    let p = |event: EventModel| event is TunnelingIndicator;
    let front = messages.drop_last();
    if i < front.len() {
        assert(front[i] == messages[i]);
        lemma_tunneling(front, i);
    } else {
        exchanges::law_tunneling_is_reported(histories::state_after(front), messages.last());
        let events = histories::events_at(histories::state_after(front), messages.last());
        histories::lemma_counted_event(events, p);
    }
    histories::lemma_event_stays(messages, p);
}

proof fn lemma_critical(frames: Seq<FrameModel>, kind: RootCauseKind)
    requires
        kind.is_critical(),
        causes::has_chain(report::report_of(frames).root_cause.chains, kind),
    ensures
        report::report_of(frames).root_cause.has_critical,
{
    let events = report::events_of(frames);
    causes::law_chain_for_every_cause_with_evidence(kind, events);
    let keep = |te: TimedModel| kind.is_shown_by(te.event);
    let shown = root_cause::evidence(kind, events);
    events.lemma_filter_pred(keep, 0);
    events.lemma_filter_contains_rev(keep, shown[0]);
    let i = choose|i: int| 0 <= i < events.len() && events[i] == shown[0];
    assert(causes::is_attack(events[i].event));
    causes::law_critical_report_has_critical_event(events);
}

/// NXDOMAIN responses of a server to a client that lie in one window, as many as
/// the threshold, are found to be domain generation.
pub proof fn law_domain_generation_is_detected(frames: Seq<FrameModel>, link: Link)
    requires
        ({
            let answers = histories::nxdomain_answers(captures::messages_of(frames), link);
            answers.len() >= 20 && anomalies::in_one_window(
                answers,
            )
        }),
    ensures
        causes::has_chain(
            report::report_of(frames).root_cause.chains,
            RootCauseKind::DgaActivity,
        ),
        report::report_of(frames).root_cause.has_critical,
{
    let messages = captures::messages_of(frames);
    let heard = histories::events_after(messages);
    let answers = histories::nxdomain_answers(messages, link);
    let q = |event: EventModel| histories::is_flood_of(event, link);
    histories::law_flood_is_reported_once(messages, link);
    anomalies::lemma_dense(answers);
    anomalies::lemma_flood_reported(answers);
    histories::lemma_counted_event(heard, q);
    let i = choose|i: int| 0 <= i < heard.len() && q(#[trigger] heard[i]);
    let p = |event: EventModel| RootCauseKind::DgaActivity.is_shown_by(event);
    assert(p(heard[i]));
    lemma_event_has_chain(frames, RootCauseKind::DgaActivity);
    lemma_critical(frames, RootCauseKind::DgaActivity);
}

/// NXDOMAIN responses of a server to a client, as many as the lower threshold,
/// however far apart, whose names have a domain in common, are found to be probing.
pub proof fn law_probing_is_detected(frames: Seq<FrameModel>, link: Link)
    requires
        ({
            let answers = histories::nxdomain_answers(captures::messages_of(frames), link);
            &&& answers.len() >= 5
            &&& domain::common_base(histories::first_names(answers)) is Some
        }),
    ensures
        causes::has_chain(
            report::report_of(frames).root_cause.chains,
            RootCauseKind::SubdomainProbing,
        ),
        report::report_of(frames).root_cause.has_critical,
{
    let messages = captures::messages_of(frames);
    let heard = histories::events_after(messages);
    let q = |event: EventModel| histories::is_probe_of(event, link);
    histories::law_probe_is_reported_once(messages, link);
    histories::lemma_counted_event(heard, q);
    let i = choose|i: int| 0 <= i < heard.len() && q(#[trigger] heard[i]);
    let p = |event: EventModel| RootCauseKind::SubdomainProbing.is_shown_by(event);
    assert(p(heard[i]));
    lemma_event_has_chain(frames, RootCauseKind::SubdomainProbing);
    lemma_critical(frames, RootCauseKind::SubdomainProbing);
}

proof fn lemma_range_grows(
    seen: Map<Seq<char>, ttl::TtlObservation>,
    records: Seq<RecordModel>,
    name: Seq<char>,
)
    requires
        seen.contains_key(name),
    ensures
        ({
            let after = ttl::seen_after(seen, records);
            &&& after.contains_key(name)
            &&& after[name].ttl_min <= seen[name].ttl_min
            &&& after[name].ttl_max >= seen[name].ttl_max
        }),
    decreases records.len(),
{
    if records.len() > 0 {
        lemma_range_grows(seen, records.drop_last(), name);
    }
}

/// A record whose time to live counts is among the answers of a response.
pub open spec fn is_answer(messages: Seq<Seen>, i: int, k: int) -> bool {
    &&& 0 <= i < messages.len()
    &&& messages[i].pkt.is_response
    &&& 0 <= k < messages[i].pkt.answers.len()
    &&& exchanges::is_counted(messages[i].pkt.answers[k])
}

proof fn lemma_range_remembers(messages: Seq<Seen>, i: int, k: int)
    requires
        is_answer(messages, i, k),
    ensures
        ({
            let record = messages[i].pkt.answers[k];
            let seen = histories::state_after(messages).ttl_obs;
            &&& seen.contains_key(record.name)
            &&& seen[record.name].ttl_min <= record.ttl <= seen[record.name].ttl_max
        }),
    decreases messages.len(),
{
    let front = messages.drop_last();
    let m = messages.last();
    let seen = histories::state_after(front).ttl_obs;
    if i < front.len() {
        assert(front[i] == messages[i]);
        lemma_range_remembers(front, i, k);
        if m.pkt.is_response {
            lemma_range_grows(seen, m.pkt.answers, messages[i].pkt.answers[k].name);
        }
    } else {
        anomalies::law_range_holds_what_was_seen(seen, m.pkt.answers, k);
    }
}

/// Answers that give one name times to live which differ by the factor at least,
/// in one response or in several, are found to be fast-flux.
pub proof fn law_fast_flux_is_detected(
    frames: Seq<FrameModel>,
    i: int,
    k: int,
    j: int,
    l: int,
)
    requires
        ({
            let messages = captures::messages_of(frames);
            &&& is_answer(messages, i, k)
            &&& is_answer(messages, j, l)
            &&& messages[i].pkt.answers[k].name == messages[j].pkt.answers[l].name
            &&& messages[i].pkt.answers[k].ttl >= 10
                * messages[j].pkt.answers[l].ttl
        }),
    ensures
        causes::has_chain(report::report_of(frames).root_cause.chains, RootCauseKind::FastFlux),
{
    let messages = captures::messages_of(frames);
    let name = messages[i].pkt.answers[k].name;
    let state = histories::state_after(messages);
    lemma_range_remembers(messages, i, k);
    lemma_range_remembers(messages, j, l);
    exchanges::law_every_state_is_coherent(messages);
    assert(exchanges::coherent_range(state.ttl_obs[name]));
    let q = |event: EventModel| anomalies::reports_range_of(event, name);
    histories::law_wide_range_is_reported_once(messages, name);
    let heard = histories::events_after(messages);
    histories::lemma_counted_event(heard, q);
    let n = choose|n: int| 0 <= n < heard.len() && q(#[trigger] heard[n]);
    let p = |event: EventModel| RootCauseKind::FastFlux.is_shown_by(event);
    assert(p(heard[n]));
    lemma_event_has_chain(frames, RootCauseKind::FastFlux);
}

/// A response whose TC bit is set is reported.
pub proof fn law_truncation_is_detected(frames: Seq<FrameModel>, i: int)
    requires
        ({
            let messages = captures::messages_of(frames);
            &&& 0 <= i < messages.len()
            &&& messages[i].pkt.is_response
            &&& messages[i].pkt.truncated
        }),
    ensures
        exists|k: int|
            0 <= k < report::events_of(frames).len() && (
            #[trigger] report::events_of(frames)[k]).event == exchanges::truncation(
                captures::messages_of(frames)[i],
            ),
{
    let messages = captures::messages_of(frames);
    let wanted = exchanges::truncation(messages[i]);
    let p = |event: EventModel| event == wanted;
    lemma_truncation(messages, i);
    lemma_events_of_messages(frames);
    let heard = histories::events_after(messages);
    let k = choose|k: int| 0 <= k < heard.len() && p(#[trigger] heard[k]);
    let done = report::after_frames(frames).events;
    assert(done.map_values(|te: TimedModel| te.event)[k] == done[k].event);
    assert(report::events_of(frames)[k] == done[k]);
}

proof fn lemma_truncation(messages: Seq<Seen>, i: int)
    requires
        0 <= i < messages.len(),
        messages[i].pkt.is_response,
        messages[i].pkt.truncated,
    ensures
        histories::some_event(
            histories::events_after(messages),
            |event: EventModel| event == exchanges::truncation(messages[i]),
        ),
    decreases messages.len(),
{
    let wanted = exchanges::truncation(messages[i]);
    let p = |event: EventModel| event == exchanges::truncation(messages[i]);
    let front = messages.drop_last();
    if i < front.len() {
        assert(front[i] == messages[i]);
        lemma_truncation(front, i);
        let heard = histories::events_after(front);
        let q = |event: EventModel| event == exchanges::truncation(front[i]);
        let k = choose|k: int| 0 <= k < heard.len() && q(#[trigger] heard[k]);
        assert(p(heard[k]));
    } else {
        let events = histories::events_at(histories::state_after(front), messages.last());
        assert(events[0] == wanted);
        assert(p(events[0]));
    }
    histories::lemma_event_stays(messages, p);
}

/// Three queries without a response, or more, are found to be an unreachable
/// server; fewer are not.
pub proof fn law_unreachable_server_is_detected(frames: Seq<FrameModel>)
    ensures
        causes::has_chain(
            report::report_of(frames).root_cause.chains,
            RootCauseKind::ServerUnreachable,
        ) <==> report::report_of(frames).summary.timeout_count >= 3,
{
    let events = report::events_of(frames);
    let kind = RootCauseKind::ServerUnreachable;
    causes::law_chain_for_every_cause_with_evidence(kind, events);
    let p = |te: TimedModel| te.event is QueryTimeout;
    let q = |te: TimedModel| kind.is_shown_by(te.event);
    assert(p =~= q);
}

/// How many of the messages are queries of an exchange.
pub open spec fn queries_of(messages: Seq<Seen>, e: Exchange) -> nat {
    messages.filter(|m: Seen| exchanges::is_query_of(m, e)).len()
}

proof fn lemma_repeats(state: AnalyzerModel, messages: Seq<Seen>, e: Exchange)
    requires
        exchanges::coherent(state),
        analyzer::is_pending(state.pending, e),
        exchanges::no_response_of(messages, e),
    ensures
        exchanges::coherent(exchanges::after_all(state, messages)),
        analyzer::is_pending(exchanges::after_all(state, messages).pending, e),
        ({
            let count = exchanges::waiting(
                exchanges::after_all(state, messages),
                e,
            ).retransmit_count;
            count >= queries_of(messages, e) || count >= 3
        }),
    decreases messages.len(),
{
    let p = |m: Seen| exchanges::is_query_of(m, e);
    if messages.len() == 0 {
        reveal(Seq::filter);
    } else {
        let front = messages.drop_last();
        let last = messages[messages.len() - 1];
        assert forall|i: int| 0 <= i < front.len() implies !((#[trigger] front[i]).pkt.is_response
            && front[i].exchange() == e) by {
            assert(front[i] == messages[i]);
        }
        lemma_repeats(state, front, e);
        let before = exchanges::after_all(state, front);
        exchanges::law_messages_keep_coherence(before, last);
        exchanges::law_query_waits_for_its_response(before, last, e);
        assert(front.push(last) =~= messages);
        seqs::lemma_filter_push(front, last, p);
        exchanges::law_only_its_own_messages_change_a_query(before, last, e);
    }
}

proof fn lemma_repeats_reported(messages: Seq<Seen>, e: Exchange)
    requires
        analyzer::is_pending(histories::state_after(messages).pending, e),
        exchanges::waiting(histories::state_after(messages), e).retransmit_reported,
    ensures
        histories::some_event(
            histories::events_after(messages),
            |event: EventModel| event is QueryRetransmit,
        ),
    decreases messages.len(),
{
    let p = |event: EventModel| event is QueryRetransmit;
    if messages.len() > 0 {
        let front = messages.drop_last();
        let m = messages.last();
        let state = histories::state_after(front);
        exchanges::law_every_state_is_coherent(front);
        exchanges::law_every_state_is_coherent(messages);
        if !analyzer::is_pending(state.pending, e) {
            exchanges::law_only_query_starts_to_wait(state, m, e);
            let next = histories::state_after(messages);
            let last = next.pending.len() - 1;
            assert(next.pending[last].exchange() == e);
            analyzer::lemma_place(next.pending, e, last);
        } else if m.pkt.is_response && m.exchange() == e {
            exchanges::law_answered_query_waits_no_longer(state, m);
        } else {
            exchanges::law_only_its_own_messages_change_a_query(state, m, e);
            if exchanges::waiting(state, e).retransmit_reported {
                lemma_repeats_reported(front, e);
            } else {
                exchanges::law_query_is_sent_or_repeated(state, m);
                histories::lemma_counted_event(histories::events_at(state, m), p);
            }
            histories::lemma_event_stays(messages, p);
        }
    }
}

/// A query that is repeated as often as the threshold without a response is
/// found to be a sign of an unstable network.
pub proof fn law_instability_is_detected(
    before: Seq<FrameModel>,
    frame: FrameModel,
    after: Seq<FrameModel>,
)
    requires
        ({
            let e = captures::message_of(frame).exchange();
            &&& report::message_in(frame.data) matches Some(sent)
            &&& !sent.pkt.is_response
            &&& exchanges::no_response_of(captures::messages_of(after), e)
            &&& queries_of(captures::messages_of(after), e) >= 3
        }),
    ensures
        causes::has_chain(
            report::report_of(before.push(frame) + after).root_cause.chains,
            RootCauseKind::NetworkInstability,
        ),
{
    let m = captures::message_of(frame);
    let e = m.exchange();
    let frames = before.push(frame) + after;
    let start = report::after_frames(before).analyzer;
    captures::law_analysis_is_coherent(before);
    assert(before.push(frame).drop_last() =~= before);
    let asked = report::after_frames(before.push(frame)).analyzer;
    captures::law_analysis_is_coherent(before.push(frame));
    if analyzer::is_pending(start.pending, e) {
        exchanges::law_query_waits_for_its_response(start, m, e);
    } else {
        exchanges::law_only_query_starts_to_wait(start, m, e);
    }
    lemma_repeats(asked, captures::messages_of(after), e);
    captures::law_analysis_follows_the_messages(before.push(frame), after);
    lemma_events_of_messages(frames);
    let messages = captures::messages_of(frames);
    let end = histories::state_after(messages);
    let i = analyzer::place_of(end.pending, e);
    assert(exchanges::coherent_query(end.pending[i], end.clients));
    lemma_repeats_reported(messages, e);
    let heard = histories::events_after(messages);
    let p = |event: EventModel| event is QueryRetransmit;
    let k = choose|k: int| 0 <= k < heard.len() && p(#[trigger] heard[k]);
    let q = |event: EventModel| RootCauseKind::NetworkInstability.is_shown_by(event);
    assert(q(heard[k]));
    lemma_event_has_chain(frames, RootCauseKind::NetworkInstability);
}

proof fn lemma_event_of_message(messages: Seq<Seen>, k: int, p: spec_fn(EventModel) -> bool)
    requires
        0 <= k < messages.len(),
        histories::some_event(
            histories::events_at(histories::state_after(messages.take(k)), messages[k]),
            p,
        ),
    ensures
        histories::some_event(histories::events_after(messages), p),
    decreases messages.len(),
{
    let front = messages.drop_last();
    if k < front.len() {
        assert(front.take(k) =~= messages.take(k));
        lemma_event_of_message(front, k, p);
    } else {
        assert(front =~= messages.take(k));
    }
    histories::lemma_event_stays(messages, p);
}

proof fn lemma_answer_stays(messages: Seq<Seen>, i: int, j: int, t: Transaction)
    requires
        0 <= i <= j <= messages.len(),
        histories::state_after(messages.take(i)).answered.contains_key(t),
    ensures
        ({
            let before = histories::state_after(messages.take(i)).answered;
            let after = histories::state_after(messages.take(j)).answered;
            after.contains_key(t) && after[t] == before[t]
        }),
    decreases j,
{
    if i < j {
        lemma_answer_stays(messages, i, j - 1, t);
        assert(messages.take(j).drop_last() =~= messages.take(j - 1));
    }
}

/// A transaction that is answered and gets a response from another source later is
/// reported as a duplicate, and points to a rogue resolver.
pub proof fn law_rogue_resolver_is_detected(frames: Seq<FrameModel>, i: int, j: int)
    requires
        ({
            let messages = captures::messages_of(frames);
            &&& 0 <= i < j < messages.len()
            &&& messages[i].pkt.is_response
            &&& messages[j].pkt.is_response
            &&& messages[i].exchange().transaction() == messages[j].exchange().transaction()
            &&& messages[i].src != messages[j].src
            &&& analyzer::is_pending(
                histories::state_after(messages.take(i)).pending,
                messages[i].exchange(),
            )
        }),
    ensures
        report::report_of(frames).events.map_values(|te: TimedModel| te.event).filter(
            |event: EventModel| event is DuplicateResponse,
        ).len() > 0,
        causes::has_chain(
            report::report_of(frames).root_cause.chains,
            RootCauseKind::RogueResolver,
        ),
        report::report_of(frames).root_cause.has_critical,
{
    let messages = captures::messages_of(frames);
    let t = messages[i].exchange().transaction();
    let p = |event: EventModel| event is DuplicateResponse;
    let at_first = histories::state_after(messages.take(i));
    let at_second = histories::state_after(messages.take(j));
    assert(messages.take(i + 1).drop_last() =~= messages.take(i));
    assert(messages.take(i + 1).last() == messages[i]);
    lemma_answer_stays(messages, i + 1, j, t);
    if at_second.answered[t] != messages[j].src {
        exchanges::law_duplicate_is_reported(at_second, messages[j]);
        histories::lemma_counted_event(histories::events_at(at_second, messages[j]), p);
        lemma_event_of_message(messages, j, p);
    } else {
        exchanges::law_duplicate_is_reported(at_first, messages[i]);
        histories::lemma_counted_event(histories::events_at(at_first, messages[i]), p);
        lemma_event_of_message(messages, i, p);
    }
    let heard = histories::events_after(messages);
    let k = choose|k: int| 0 <= k < heard.len() && p(#[trigger] heard[k]);
    let q = |event: EventModel| RootCauseKind::RogueResolver.is_shown_by(event);
    assert(q(heard[k]));
    lemma_event_has_chain(frames, RootCauseKind::RogueResolver);
    lemma_critical(frames, RootCauseKind::RogueResolver);
    lemma_events_of_messages(frames);
    let done = report::after_frames(frames).events;
    let all = report::events_of(frames);
    let event = |te: TimedModel| te.event;
    assert(done.map_values(event)[k] == done[k].event);
    assert(all[k] == done[k]);
    assert(p(all.map_values(event)[k]));
    all.map_values(event).lemma_filter_contains(p, k);
}

} // verus!
