//! Laws of the report on a capture, said of its frames and its events alone.

use vstd::prelude::*;

use crate::event::{EventModel, Severity, TimedModel, Timestamp};
use crate::laws::captures;
use crate::laws::exchanges::Seen;
use crate::laws::findings;
use crate::laws::histories;
use crate::laws::traces;
use crate::report;
use crate::report::FrameModel;
use crate::root_cause;

verus! {

/// Whether a file starts with the four bytes of a PCAPng section header.
pub proof fn law_section_header_is_known_by_four_bytes(rest: Seq<u8>, data: Seq<u8>)
    ensures
        report::starts_with_section_header(seq![0x0Au8, 0x0Du8, 0x0Du8, 0x0Au8] + rest),
        data.len() < 4 || data[0] != 0x0A || data[1] != 0x0D || data[2] != 0x0D || data[3] != 0x0A
            ==> !report::starts_with_section_header(data),
{
    let header = seq![0x0Au8, 0x0Du8, 0x0Du8, 0x0Au8];
    assert((header + rest).take(4) =~= header);
    if data.len() >= 4 && data.take(4) == header {
        assert(data.take(4)[0] == data[0] && data.take(4)[1] == data[1]);
        assert(data.take(4)[2] == data[2] && data.take(4)[3] == data[3]);
    }
}

/// An event at a time, with the severity of its kind.
pub open spec fn at_time(event: EventModel, ts: Timestamp) -> TimedModel {
    TimedModel {
        ts,
        event,
        severity: if event is QuerySent || event is ResponseReceived {
            Severity::Info
        } else if event is NxdomainFlood || event is SlowNxdomainProbe
            || event is TunnelingIndicator || event is DuplicateResponse {
            Severity::Critical
        } else {
            Severity::Warning
        },
    }
}

/// Some events, all at one time.
pub open spec fn all_at_time(events: Seq<EventModel>, ts: Timestamp) -> Seq<TimedModel> {
    Seq::new(events.len(), |i: int| at_time(events[i], ts))
}

proof fn lemma_timed(events: Seq<EventModel>, ts: Timestamp)
    ensures
        report::timed(events, ts) == all_at_time(events, ts),
{
    assert forall|i: int| 0 <= i < events.len() implies (#[trigger] events[i]).timed(ts)
        == at_time(events[i], ts) by {
        findings::law_severity_of_event(events[i]);
    }
    assert(report::timed(events, ts) =~= all_at_time(events, ts));
}

/// What messages tell, each at its own time.
pub open spec fn told_by(messages: Seq<Seen>) -> Seq<TimedModel>
    decreases messages.len(),
{
    if messages.len() == 0 {
        Seq::empty()
    } else {
        let front = messages.drop_last();
        let m = messages.last();
        told_by(front) + all_at_time(
            histories::events_at(histories::state_after(front), m),
            m.ts,
        )
    }
}

proof fn lemma_told_by(frames: Seq<FrameModel>)
    ensures
        ({
            let done = report::after_frames(frames);
            let messages = captures::messages_of(frames);
            &&& done.events == told_by(messages)
            &&& done.analyzer == histories::state_after(messages)
            &&& done.dns_packets == messages.len()
        }),
    decreases frames.len(),
{
    if frames.len() > 0 {
        let front = frames.drop_last();
        let frame = frames.last();
        lemma_told_by(front);
        if report::message_in(frame.data) is Some {
            let sent = report::message_in(frame.data)->0;
            let m = Seen { pkt: sent.pkt, src: sent.src, dst: sent.dst, ts: frame.ts };
            let messages = captures::messages_of(front);
            assert(messages.push(m).drop_last() =~= messages);
            lemma_timed(histories::events_at(histories::state_after(messages), m), m.ts);
        }
    }
}

/// The events of the report are those of the messages, each at the time of its frame,
/// and behind them the timeouts, at the time of the last frame. The report counts the
/// frames and the messages, and says how long it is from the first frame to the last.
pub proof fn law_report_tells_what_the_messages_tell(frames: Seq<FrameModel>)
    requires
        frames.len() > 0,
    ensures
        ({
            let full = report::report_of(frames);
            let messages = captures::messages_of(frames);
            let end = frames[frames.len() - 1].ts;
            &&& full.total_packets == frames.len()
            &&& full.dns_packets == messages.len()
            &&& full.duration_us == end.at() - frames[0].ts.at()
            &&& full.events == told_by(messages) + all_at_time(
                histories::state_after(messages).timeouts(end),
                end,
            )
            &&& full.root_cause == root_cause::report_on(full.events)
        }),
{
    lemma_told_by(frames);
    let messages = captures::messages_of(frames);
    lemma_timed(histories::state_after(messages).timeouts(frames.last().ts), frames.last().ts);
}

/// The report on no frames tells nothing and lasts no time.
pub proof fn law_report_on_no_frames()
    ensures
        ({
            let full = report::report_of(Seq::empty());
            &&& full.total_packets == 0
            &&& full.dns_packets == 0
            &&& full.duration_us == 0
            &&& full.events == Seq::<TimedModel>::empty()
        }),
{
    let none = Seq::<FrameModel>::empty();
    let start = Timestamp { sec: 0, usec: 0 };
    assert(report::after_frames(none).analyzer.timeouts(start) =~= Seq::empty()) by {
        reveal(Seq::filter);
    }
    assert(report::events_of(none) =~= Seq::empty());
}

/// The counts of the report: queries and responses, the NXDOMAIN and SERVFAIL among the
/// responses, timeouts, and all events that are neither a query nor a response.
pub proof fn law_events_are_counted(frames: Seq<FrameModel>)
    ensures
        ({
            let full = report::report_of(frames);
            let events = full.events;
            &&& full.summary.total_queries == events.filter(
                |te: TimedModel| te.event is QuerySent,
            ).len()
            &&& full.summary.total_responses == events.filter(
                |te: TimedModel| te.event is ResponseReceived,
            ).len()
            &&& full.summary.nxdomain_count == events.filter(
                |te: TimedModel|
                    te.event is ResponseReceived && te.event->ResponseReceived_rcode
                        == "NXDOMAIN"@,
            ).len()
            &&& full.summary.servfail_count == events.filter(
                |te: TimedModel|
                    te.event is ResponseReceived && te.event->ResponseReceived_rcode
                        == "SERVFAIL"@,
            ).len()
            &&& full.summary.timeout_count == events.filter(
                |te: TimedModel| te.event is QueryTimeout,
            ).len()
            &&& full.summary.anomalies == events.filter(
                |te: TimedModel| !(te.severity is Info),
            ).len()
        }),
{
    let nx = |te: TimedModel|
        te.event is ResponseReceived && te.event->ResponseReceived_rcode == "NXDOMAIN"@;
    let nxdomain = |te: TimedModel| report::is_response_with(te.event, "NXDOMAIN"@);
    assert(nx =~= nxdomain);
    let fail = |te: TimedModel|
        te.event is ResponseReceived && te.event->ResponseReceived_rcode == "SERVFAIL"@;
    let servfail = |te: TimedModel| report::is_response_with(te.event, "SERVFAIL"@);
    assert(fail =~= servfail);
    let bad = |te: TimedModel| !(te.severity is Info);
    let anomaly = |te: TimedModel| report::is_anomaly(te);
    assert(bad =~= anomaly);
}

/// The report counts the different senders of queries and the different names that
/// they ask for first, but for the empty one.
pub proof fn law_clients_and_names_are_counted(frames: Seq<FrameModel>)
    ensures
        ({
            let full = report::report_of(frames);
            let messages = captures::messages_of(frames);
            let asking = messages.filter(|m: Seen| !m.pkt.is_response);
            &&& full.summary.unique_clients == asking.map_values(|m: Seen| m.src).to_set().len()
            &&& full.summary.unique_names == asking.filter(
                |m: Seen| m.pkt.questions.len() > 0 && m.pkt.questions[0].name.len() > 0,
            ).map_values(|m: Seen| m.pkt.questions[0].name).to_set().len()
        }),
{
    lemma_told_by(frames);
    let messages = captures::messages_of(frames);
    lemma_clients(messages);
    lemma_names(messages);
}

proof fn lemma_clients(messages: Seq<Seen>)
    ensures
        histories::state_after(messages).clients == messages.filter(
            |m: Seen| !m.pkt.is_response,
        ).map_values(|m: Seen| m.src).to_set(),
{
    let is_query = |m: Seen| !m.pkt.is_response;
    let asking = messages.filter(is_query);
    let sources = asking.map_values(|m: Seen| m.src);
    let clients = histories::state_after(messages).clients;
    traces::law_clients_and_names_are_those_of_queries(messages);
    assert forall|client: Seq<char>| clients.contains(client) <==> sources.to_set().contains(
        client,
    ) by {
        if clients.contains(client) {
            let i = choose|i: int|
                0 <= i < messages.len() && !(#[trigger] messages[i]).pkt.is_response
                    && messages[i].src == client;
            messages.lemma_filter_contains(is_query, i);
            let j = choose|j: int| 0 <= j < asking.len() && asking[j] == messages[i];
            assert(sources[j] == client);
        }
        if sources.contains(client) {
            let j = choose|j: int| 0 <= j < sources.len() && sources[j] == client;
            messages.lemma_filter_pred(is_query, j);
            messages.lemma_filter_contains_rev(is_query, asking[j]);
            let i = choose|i: int| 0 <= i < messages.len() && messages[i] == asking[j];
            assert(messages[i].src == client);
        }
    }
    assert(clients =~= sources.to_set());
}

proof fn lemma_names(messages: Seq<Seen>)
    ensures
        histories::state_after(messages).names == messages.filter(
            |m: Seen| !m.pkt.is_response,
        ).filter(
            |m: Seen| m.pkt.questions.len() > 0 && m.pkt.questions[0].name.len() > 0,
        ).map_values(|m: Seen| m.pkt.questions[0].name).to_set(),
{
    let is_query = |m: Seen| !m.pkt.is_response;
    let is_named = |m: Seen| m.pkt.questions.len() > 0 && m.pkt.questions[0].name.len() > 0;
    let asking = messages.filter(is_query);
    let naming = asking.filter(is_named);
    let asked = naming.map_values(|m: Seen| m.pkt.questions[0].name);
    let names = histories::state_after(messages).names;
    traces::law_clients_and_names_are_those_of_queries(messages);
    assert forall|name: Seq<char>| names.contains(name) <==> asked.to_set().contains(name) by {
        if names.contains(name) {
            let i = choose|i: int|
                0 <= i < messages.len() && !(#[trigger] messages[i]).pkt.is_response
                    && messages[i].pkt.questions.len() > 0
                    && messages[i].pkt.questions[0].name == name;
            messages.lemma_filter_contains(is_query, i);
            let j = choose|j: int| 0 <= j < asking.len() && asking[j] == messages[i];
            asking.lemma_filter_contains(is_named, j);
            let k = choose|k: int| 0 <= k < naming.len() && naming[k] == asking[j];
            assert(asked[k] == name);
        }
        if asked.contains(name) {
            let k = choose|k: int| 0 <= k < asked.len() && asked[k] == name;
            asking.lemma_filter_pred(is_named, k);
            asking.lemma_filter_contains_rev(is_named, naming[k]);
            let j = choose|j: int| 0 <= j < asking.len() && asking[j] == naming[k];
            messages.lemma_filter_pred(is_query, j);
            messages.lemma_filter_contains_rev(is_query, asking[j]);
            let i = choose|i: int| 0 <= i < messages.len() && messages[i] == asking[j];
            assert(messages[i].pkt.questions[0].name == name);
        }
    }
    assert(names =~= asked.to_set());
}

} // verus!
