//! Laws of the report on a capture.

use vstd::prelude::*;

use crate::address;
use crate::analyzer;
use crate::dns;
use crate::event::{EventModel, Severity, TimedModel};
use crate::laws::causes;
use crate::laws::exchanges;
use crate::laws::exchanges::Seen;
use crate::laws::frames;
use crate::laws::messages;
use crate::net;
use crate::report;
use crate::report::FrameModel;
use crate::root_cause::RootCauseKind;
use crate::seqs;

verus! {

/// An Ethernet frame that carries an IP packet.
pub open spec fn ethernet_bytes(addresses: Seq<u8>, packet: Seq<u8>) -> Seq<u8> {
    addresses + seq![0x08u8, 0x00u8] + packet
}

proof fn lemma_ethernet(addresses: Seq<u8>, packet: Seq<u8>)
    requires
        addresses.len() == 12,
    ensures
        net::frame_payload(ethernet_bytes(addresses, packet)) == Some(packet),
{
    let frame = ethernet_bytes(addresses, packet);
    frames::law_frame_type_decides(addresses, (0x08u8, 0x00u8), packet);
    assert(frame.skip(14) =~= packet);
}

proof fn lemma_in_frame(
    addresses: Seq<u8>,
    rest: frames::IpRest,
    src: Seq<u8>,
    dst: Seq<u8>,
    ttl: u8,
    protocol: u8,
    payload: Seq<u8>,
    padding: Seq<u8>,
)
    requires
        addresses.len() == 12,
        src.len() == 4,
        dst.len() == 4,
        rest.fits(),
        20 + rest.options.len() + payload.len() <= 0xFFFF,
    ensures
        report::message_in(
            ethernet_bytes(
                addresses,
                frames::ip_bytes(rest, ttl, protocol, src, dst, payload) + padding,
            ),
        ) == match report::message_over(protocol, payload) {
            Some(pkt) => Some(
                report::SentModel {
                    pkt,
                    src: address::dotted(src),
                    dst: address::dotted(dst),
                },
            ),
            None => None,
        },
{
    let packet = frames::ip_bytes(rest, ttl, protocol, src, dst, payload) + padding;
    lemma_ethernet(addresses, packet);
    frames::law_ip_round_trip(rest, ttl, protocol, src, dst, payload, padding);
}

/// A DNS message in a UDP datagram from or to port 53 is found in its frame, with
/// the addresses it went from and to; one between other ports is not.
pub proof fn law_message_over_udp_is_found(
    addresses: Seq<u8>,
    rest: frames::IpRest,
    src: Seq<u8>,
    dst: Seq<u8>,
    ttl: u8,
    ports: (u16, u16),
    checksum: u16,
    msg: Seq<u8>,
    padding: Seq<u8>,
)
    requires
        addresses.len() == 12,
        src.len() == 4,
        dst.len() == 4,
        rest.fits(),
        28 + rest.options.len() + msg.len() <= 0xFFFF,
    ensures
        report::message_in(
            ethernet_bytes(
                addresses,
                frames::ip_bytes(
                    rest,
                    ttl,
                    17,
                    src,
                    dst,
                    frames::udp_bytes(ports.0, ports.1, checksum, msg),
                ) + padding,
            ),
        ) == match dns::message(msg) {
            Some(pkt) if ports.0 == 53 || ports.1 == 53 => Some(
                report::SentModel {
                    pkt,
                    src: address::dotted(src),
                    dst: address::dotted(dst),
                },
            ),
            _ => None,
        },
{
    let datagram = frames::udp_bytes(ports.0, ports.1, checksum, msg);
    lemma_in_frame(addresses, rest, src, dst, ttl, 17, datagram, padding);
    frames::law_udp_round_trip(ports.0, ports.1, checksum, msg, Seq::empty());
    assert(datagram + Seq::<u8>::empty() =~= datagram);
}

/// A DNS message behind its length in a TCP segment from or to port 53 is found in
/// its frame, with the addresses it went from and to; one between other ports is not.
pub proof fn law_message_over_tcp_is_found(
    addresses: Seq<u8>,
    rest: frames::IpRest,
    inner: frames::TcpRest,
    src: Seq<u8>,
    dst: Seq<u8>,
    ttl: u8,
    ports: (u16, u16),
    msg: Seq<u8>,
    padding: Seq<u8>,
)
    requires
        addresses.len() == 12,
        src.len() == 4,
        dst.len() == 4,
        rest.fits(),
        inner.fits(),
        42 + rest.options.len() + inner.options.len() + msg.len() <= 0xFFFF,
    ensures
        report::message_in(
            ethernet_bytes(
                addresses,
                frames::ip_bytes(
                    rest,
                    ttl,
                    6,
                    src,
                    dst,
                    frames::tcp_bytes(
                        inner,
                        ports.0,
                        ports.1,
                        messages::be_bytes(msg.len() as u16) + msg,
                    ),
                ) + padding,
            ),
        ) == match dns::message(msg) {
            Some(pkt) if ports.0 == 53 || ports.1 == 53 => Some(
                report::SentModel {
                    pkt,
                    src: address::dotted(src),
                    dst: address::dotted(dst),
                },
            ),
            _ => None,
        },
{
    let data = messages::be_bytes(msg.len() as u16) + msg;
    let segment = frames::tcp_bytes(inner, ports.0, ports.1, data);
    frames::law_tcp_round_trip(inner, ports.0, ports.1, data);
    assert(segment.len() == 20 + inner.options.len() + data.len());
    lemma_in_frame(addresses, rest, src, dst, ttl, 6, segment, padding);
    messages::law_length_prefix_frames_message(msg, Seq::empty());
    assert(data + Seq::<u8>::empty() =~= data);
}

/// No DNS message is found in a packet of another protocol, in an empty TCP segment,
/// or in a frame without an IP packet.
pub proof fn law_other_packets_hold_no_message(
    addresses: Seq<u8>,
    rest: frames::IpRest,
    inner: frames::TcpRest,
    src: Seq<u8>,
    dst: Seq<u8>,
    ttl: u8,
    protocol: u8,
    ports: (u16, u16),
    payload: Seq<u8>,
)
    requires
        addresses.len() == 12,
        src.len() == 4,
        dst.len() == 4,
        rest.fits(),
        inner.fits(),
        20 + rest.options.len() + payload.len() <= 0xFFFF,
        ({
            ||| protocol != 17 && protocol != 6
            ||| protocol == 6 && payload == frames::tcp_bytes(
                inner,
                ports.0,
                ports.1,
                Seq::empty(),
            )
        }),
    ensures
        report::message_in(
            ethernet_bytes(
                addresses,
                frames::ip_bytes(rest, ttl, protocol, src, dst, payload),
            ),
        ) is None,
{
    let packet = frames::ip_bytes(rest, ttl, protocol, src, dst, payload);
    lemma_in_frame(addresses, rest, src, dst, ttl, protocol, payload, Seq::empty());
    assert(packet + Seq::<u8>::empty() =~= packet);
    if protocol == 6 {
        frames::law_tcp_round_trip(inner, ports.0, ports.1, Seq::empty());
    }
}

/// The DNS messages in some frames.
pub open spec fn messages_of(frames: Seq<FrameModel>) -> Seq<Seen>
    decreases frames.len(),
{
    if frames.len() == 0 {
        Seq::empty()
    } else {
        let front = messages_of(frames.drop_last());
        match report::message_in(frames.last().data) {
            Some(sent) => front.push(
                Seen { pkt: sent.pkt, src: sent.src, dst: sent.dst, ts: frames.last().ts },
            ),
            None => front,
        }
    }
}

/// The analysis of a capture is that of the DNS messages in it, in their order.
pub proof fn law_analysis_follows_the_messages(before: Seq<FrameModel>, after: Seq<FrameModel>)
    ensures
        report::after_frames(before + after).analyzer == exchanges::after_all(
            report::after_frames(before).analyzer,
            messages_of(after),
        ),
    decreases after.len(),
{
    if after.len() == 0 {
        assert(before + after =~= before);
    } else {
        let front = after.drop_last();
        law_analysis_follows_the_messages(before, front);
        assert((before + after).drop_last() =~= before + front);
        assert((before + after).last() == after.last());
        if report::message_in(after.last().data) is Some {
            let sent = report::message_in(after.last().data)->0;
            let m = Seen { pkt: sent.pkt, src: sent.src, dst: sent.dst, ts: after.last().ts };
            assert(messages_of(front).push(m).drop_last() =~= messages_of(front));
        }
    }
}

/// The analysis of a capture is coherent.
pub proof fn law_analysis_is_coherent(frames: Seq<FrameModel>)
    ensures
        exchanges::coherent(report::after_frames(frames).analyzer),
{
    law_analysis_follows_the_messages(Seq::empty(), frames);
    assert(Seq::empty() + frames =~= frames);
    exchanges::law_every_state_is_coherent(messages_of(frames));
}

/// There are no more DNS messages than frames, and no more clients and no more
/// names than DNS messages.
pub proof fn law_counts_are_bounded(frames: Seq<FrameModel>)
    ensures
        ({
            let res = report::report_of(frames);
            &&& res.dns_packets <= res.total_packets
            &&& res.summary.unique_clients <= res.dns_packets
            &&& res.summary.unique_names <= res.dns_packets
        }),
    decreases frames.len(),
{
    if frames.len() > 0 {
        let front = frames.drop_last();
        law_counts_are_bounded(front);
        law_analysis_is_coherent(front);
        if report::message_in(frames.last().data) is Some {
            let sent = report::message_in(frames.last().data)->0;
            let m = Seen { pkt: sent.pkt, src: sent.src, dst: sent.dst, ts: frames.last().ts };
            exchanges::law_clients_and_names_only_grow(
                report::after_frames(front).analyzer,
                m,
            );
        }
    }
}

/// Events never go away as more frames come.
pub proof fn law_events_only_accumulate(before: Seq<FrameModel>, after: Seq<FrameModel>)
    ensures
        report::after_frames(before).events.is_prefix_of(
            report::after_frames(before + after).events,
        ),
        report::after_frames(before).events.is_prefix_of(report::events_of(before + after)),
    decreases after.len(),
{
    if after.len() == 0 {
        assert(before + after =~= before);
    } else {
        law_events_only_accumulate(before, after.drop_last());
        assert((before + after).drop_last() =~= before + after.drop_last());
    }
}

/// A frame without a DNS message changes neither the analysis nor the events.
pub proof fn law_other_frames_are_ignored(frames: Seq<FrameModel>, frame: FrameModel)
    requires
        report::message_in(frame.data) is None,
    ensures
        report::after_frames(frames.push(frame)) == report::after_frames(frames),
{
    assert(frames.push(frame).drop_last() =~= frames);
}

/// Whether every event has the severity of its kind.
pub open spec fn classified(events: Seq<TimedModel>) -> bool {
    forall|i: int|
        0 <= i < events.len() ==> (#[trigger] events[i]).severity == events[i].event.severity()
}

proof fn lemma_classified(frames: Seq<FrameModel>)
    ensures
        classified(report::after_frames(frames).events),
    decreases frames.len(),
{
    if frames.len() > 0 {
        lemma_classified(frames.drop_last());
    }
}

/// Every event of a capture has the severity of its kind.
pub proof fn law_events_are_classified(frames: Seq<FrameModel>)
    ensures
        classified(report::events_of(frames)),
{
    lemma_classified(frames);
}

proof fn lemma_counts(events: Seq<TimedModel>, clients: nat, names: nat)
    requires
        classified(events),
    ensures
        ({
            let sum = report::summary_of(events, clients, names);
            &&& sum.total_queries + sum.total_responses + sum.anomalies == events.len()
            &&& sum.nxdomain_count + sum.servfail_count <= sum.total_responses
            &&& sum.timeout_count <= sum.anomalies
        }),
    decreases events.len(),
{
    reveal_strlit("NXDOMAIN");
    reveal_strlit("SERVFAIL");
    assert("NXDOMAIN"@[0] != "SERVFAIL"@[0]);
    if events.len() == 0 {
        reveal(Seq::filter);
    } else {
        let front = events.drop_last();
        let last = events[events.len() - 1];
        assert forall|i: int| 0 <= i < front.len() implies (#[trigger] front[i]).severity
            == front[i].event.severity() by {
            assert(front[i] == events[i]);
        }
        lemma_counts(front, clients, names);
        assert(front.push(last) =~= events);
        assert(last.severity == last.event.severity());
        seqs::lemma_filter_push(front, last, |te: TimedModel| te.event is QuerySent);
        seqs::lemma_filter_push(front, last, |te: TimedModel| te.event is ResponseReceived);
        seqs::lemma_filter_push(
            front,
            last,
            |te: TimedModel| report::is_response_with(te.event, "NXDOMAIN"@),
        );
        seqs::lemma_filter_push(
            front,
            last,
            |te: TimedModel| report::is_response_with(te.event, "SERVFAIL"@),
        );
        seqs::lemma_filter_push(front, last, |te: TimedModel| te.event is QueryTimeout);
        seqs::lemma_filter_push(front, last, |te: TimedModel| report::is_anomaly(te));
    }
}

/// The counts of a report add up: an event is a query, a response or an anomaly;
/// the failures are responses, and the timeouts are anomalies.
pub proof fn law_counts_add_up(frames: Seq<FrameModel>)
    ensures
        ({
            let res = report::report_of(frames);
            let sum = res.summary;
            &&& sum.total_queries + sum.total_responses + sum.anomalies == res.events.len()
            &&& sum.nxdomain_count + sum.servfail_count <= sum.total_responses
            &&& sum.timeout_count <= sum.anomalies
        }),
{
    law_events_are_classified(frames);
    let done = report::after_frames(frames);
    lemma_counts(
        report::events_of(frames),
        done.analyzer.clients.len(),
        done.analyzer.names.len(),
    );
}

/// A capture without anomalies is clean.
pub proof fn law_no_anomalies_is_clean(frames: Seq<FrameModel>)
    requires
        report::report_of(frames).summary.anomalies == 0,
    ensures
        report::report_of(frames).root_cause.primary == RootCauseKind::Clean.title(),
        report::report_of(frames).root_cause.chains.len() == 0,
        !report::report_of(frames).root_cause.has_critical,
{
    let events = report::events_of(frames);
    let anomalous = |te: TimedModel| report::is_anomaly(te);
    law_events_are_classified(frames);
    assert forall|i: int| 0 <= i < events.len() implies (#[trigger] events[i]).event.severity()
        == Severity::Info by {
        if anomalous(events[i]) {
            events.lemma_filter_contains(anomalous, i);
        }
    }
    causes::law_no_anomaly_is_clean(events);
}

/// A response that nobody waits for is reported, and points to a rogue resolver,
/// whatever other frames the capture has.
#[verifier::rlimit(40)]
pub proof fn law_unsolicited_response_is_reported(
    before: Seq<FrameModel>,
    frame: FrameModel,
    after: Seq<FrameModel>,
)
    requires
        ({
            &&& report::message_in(frame.data) matches Some(sent)
            &&& sent.pkt.is_response
            &&& !analyzer::is_pending(
                report::after_frames(before).analyzer.pending,
                message_of(frame).exchange(),
            )
        }),
    ensures
        ({
            let res = report::report_of(before.push(frame) + after);
            &&& res.events.contains(exchanges::unsolicited(message_of(frame)).timed(frame.ts))
            &&& causes::has_chain(res.root_cause.chains, RootCauseKind::RogueResolver)
            &&& res.root_cause.has_critical
        }),
{
    let m = message_of(frame);
    let start = report::after_frames(before);
    let event = exchanges::unsolicited(m);
    exchanges::law_response_is_received_or_unsolicited(start.analyzer, m);
    let new = start.analyzer.events(m.pkt, m.src, m.dst, m.ts);
    let k = choose|k: int| 0 <= k < new.len() && new[k] == event;
    assert(before.push(frame).drop_last() =~= before);
    let next = report::after_frames(before.push(frame)).events;
    let i = start.events.len() + k;
    assert(next[i] == event.timed(frame.ts));
    law_events_only_accumulate(before.push(frame), after);
    let all = report::events_of(before.push(frame) + after);
    assert(all[i] == next[i]);
    causes::law_spoofing_points_to_rogue_resolver(all, i);
}

/// The DNS message in a frame.
pub open spec fn message_of(frame: FrameModel) -> Seen {
    let sent = report::message_in(frame.data)->0;
    Seen { pkt: sent.pkt, src: sent.src, dst: sent.dst, ts: frame.ts }
}

/// A query that gets no response is reported when the capture ends, whatever
/// other frames it has, if the timeout has passed by then.
pub proof fn law_unanswered_query_is_reported(
    before: Seq<FrameModel>,
    frame: FrameModel,
    after: Seq<FrameModel>,
)
    requires
        ({
            &&& report::message_in(frame.data) matches Some(sent)
            &&& !sent.pkt.is_response
            &&& !analyzer::is_pending(
                report::after_frames(before).analyzer.pending,
                message_of(frame).exchange(),
            )
            &&& exchanges::no_response_of(messages_of(after), message_of(frame).exchange())
            &&& report::last_time(before.push(frame) + after).at() - frame.ts.at()
                >= 5_000_000
        }),
    ensures
        ({
            let frames = before.push(frame) + after;
            let m = message_of(frame);
            report::events_of(frames).contains(
                (EventModel::QueryTimeout {
                    txid: 0,
                    client: m.src,
                    server: m.dst,
                    name: exchanges::name_in(m.pkt),
                    qtype: exchanges::type_in(m.pkt),
                }).timed(report::last_time(frames)),
            )
        }),
{
    let m = message_of(frame);
    let frames = before.push(frame) + after;
    let now = report::last_time(frames);
    let start = report::after_frames(before).analyzer;
    law_analysis_is_coherent(before);
    exchanges::law_unanswered_query_times_out(start, m, messages_of(after), now);
    assert(before.push(frame).drop_last() =~= before);
    law_analysis_follows_the_messages(before.push(frame), after);
    let done = report::after_frames(frames);
    let late = done.analyzer.timeouts(now);
    let event = EventModel::QueryTimeout {
        txid: 0,
        client: m.src,
        server: m.dst,
        name: exchanges::name_in(m.pkt),
        qtype: exchanges::type_in(m.pkt),
    };
    let k = choose|k: int| 0 <= k < late.len() && late[k] == event;
    assert(report::events_of(frames)[done.events.len() + k] == event.timed(now));
}

} // verus!
