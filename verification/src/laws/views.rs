//! What the values of the library say is what their fields hold.

use vstd::prelude::*;

use crate::dns::{DnsPacket, DnsQuestion, DnsRecord};
use crate::event::{DnsEvent, ReportSummary, TimedEvent};
use crate::net::IpHeader;
use crate::nxdomain::{NxdomainEntry, NxdomainTracker};
use crate::report::{CapturedFrame, FullReport, SentMessage};
use crate::root_cause::{CausalChain, RootCauseReport};
use crate::seqs;

verus! {

/// What a list says is what each of its items says, in the same order.
pub proof fn law_list_says_what_its_items_say<T: View>(items: Seq<T>)
    ensures
        seqs::views(items).len() == items.len(),
        forall|i: int| 0 <= i < items.len() ==> #[trigger] seqs::views(items)[i] == items[i]@,
{
}

/// What an option says is what the value in it says.
pub proof fn law_option_says_what_its_value_says<T: View>(item: Option<T>)
    ensures
        seqs::view_of_option(item) is Some <==> item is Some,
        item is Some ==> seqs::view_of_option(item)->0 == item->0@,
{
}

/// What an event says is its kind and what each of its fields holds.
pub proof fn law_event_says_what_it_holds(event: DnsEvent)
    ensures
        event is QuerySent ==> {
            &&& event@ is QuerySent
            &&& event@->QuerySent_txid == event->QuerySent_txid
            &&& event@->QuerySent_client == event->QuerySent_client@
            &&& event@->QuerySent_server == event->QuerySent_server@
            &&& event@->QuerySent_name == event->QuerySent_name@
            &&& event@->QuerySent_qtype == event->QuerySent_qtype@
        },
        event is ResponseReceived ==> {
            &&& event@ is ResponseReceived
            &&& event@->ResponseReceived_txid == event->ResponseReceived_txid
            &&& event@->ResponseReceived_client == event->ResponseReceived_client@
            &&& event@->ResponseReceived_server == event->ResponseReceived_server@
            &&& event@->ResponseReceived_name == event->ResponseReceived_name@
            &&& event@->ResponseReceived_qtype == event->ResponseReceived_qtype@
            &&& event@->ResponseReceived_rcode == event->ResponseReceived_rcode@
            &&& event@->answer_count == event->answer_count
            &&& event@->latency_us == event->latency_us
        },
        event is QueryTimeout ==> {
            &&& event@ is QueryTimeout
            &&& event@->QueryTimeout_txid == event->QueryTimeout_txid
            &&& event@->QueryTimeout_client == event->QueryTimeout_client@
            &&& event@->QueryTimeout_server == event->QueryTimeout_server@
            &&& event@->QueryTimeout_name == event->QueryTimeout_name@
            &&& event@->QueryTimeout_qtype == event->QueryTimeout_qtype@
        },
        event is UnsolicitedResponse ==> {
            &&& event@ is UnsolicitedResponse
            &&& event@->UnsolicitedResponse_txid == event->UnsolicitedResponse_txid
            &&& event@->src == event->src@
            &&& event@->UnsolicitedResponse_name == event->UnsolicitedResponse_name@
            &&& event@->UnsolicitedResponse_rcode == event->UnsolicitedResponse_rcode@
        },
        event is TruncatedResponse ==> {
            &&& event@ is TruncatedResponse
            &&& event@->TruncatedResponse_txid == event->TruncatedResponse_txid
            &&& event@->TruncatedResponse_client == event->TruncatedResponse_client@
            &&& event@->TruncatedResponse_server == event->TruncatedResponse_server@
            &&& event@->TruncatedResponse_name == event->TruncatedResponse_name@
        },
        event is NxdomainFlood ==> {
            &&& event@ is NxdomainFlood
            &&& event@->NxdomainFlood_client == event->NxdomainFlood_client@
            &&& event@->NxdomainFlood_server == event->NxdomainFlood_server@
            &&& event@->NxdomainFlood_count == event->NxdomainFlood_count
            &&& event@->window_sec == event->window_sec
            &&& event@->sample_names == seqs::views(event->sample_names@)
        },
        event is SlowNxdomainProbe ==> {
            &&& event@ is SlowNxdomainProbe
            &&& event@->SlowNxdomainProbe_client == event->SlowNxdomainProbe_client@
            &&& event@->SlowNxdomainProbe_server == event->SlowNxdomainProbe_server@
            &&& event@->SlowNxdomainProbe_count == event->SlowNxdomainProbe_count
            &&& event@->names == seqs::views(event->names@)
        },
        event is QueryRetransmit ==> {
            &&& event@ is QueryRetransmit
            &&& event@->QueryRetransmit_txid == event->QueryRetransmit_txid
            &&& event@->QueryRetransmit_client == event->QueryRetransmit_client@
            &&& event@->QueryRetransmit_name == event->QueryRetransmit_name@
            &&& event@->QueryRetransmit_count == event->QueryRetransmit_count
        },
        event is TunnelingIndicator ==> {
            &&& event@ is TunnelingIndicator
            &&& event@->TunnelingIndicator_client == event->TunnelingIndicator_client@
            &&& event@->TunnelingIndicator_name == event->TunnelingIndicator_name@
            &&& event@->TunnelingIndicator_qtype == event->TunnelingIndicator_qtype@
            &&& event@->reason == event->reason@
        },
        event is TtlAnomaly ==> {
            &&& event@ is TtlAnomaly
            &&& event@->TtlAnomaly_name == event->TtlAnomaly_name@
            &&& event@->ttl_min == event->ttl_min
            &&& event@->ttl_max == event->ttl_max
            &&& event@->TtlAnomaly_server == event->TtlAnomaly_server@
        },
        event is DuplicateResponse ==> {
            &&& event@ is DuplicateResponse
            &&& event@->DuplicateResponse_txid == event->DuplicateResponse_txid
            &&& event@->DuplicateResponse_name == event->DuplicateResponse_name@
            &&& event@->first_src == event->first_src@
            &&& event@->second_src == event->second_src@
        },
{
}

/// What an event with its time says.
pub proof fn law_timed_event_says_what_it_holds(te: TimedEvent)
    ensures
        te@.ts == te.ts,
        te@.event == te.event@,
        te@.severity == te.severity,
{
}

/// What the counts over events say.
pub proof fn law_summary_says_what_it_holds(summary: ReportSummary)
    ensures
        summary@.total_queries == summary.total_queries,
        summary@.total_responses == summary.total_responses,
        summary@.nxdomain_count == summary.nxdomain_count,
        summary@.servfail_count == summary.servfail_count,
        summary@.timeout_count == summary.timeout_count,
        summary@.anomalies == summary.anomalies,
        summary@.unique_clients == summary.unique_clients,
        summary@.unique_names == summary.unique_names,
{
}

/// What a question says.
pub proof fn law_question_says_what_it_holds(question: DnsQuestion)
    ensures
        question@.name == question.name@,
        question@.qtype == question.qtype,
        question@.qclass == question.qclass,
{
}

/// What a record says.
pub proof fn law_record_says_what_it_holds(record: DnsRecord)
    ensures
        record@.name == record.name@,
        record@.rtype == record.rtype,
        record@.rclass == record.rclass,
        record@.ttl == record.ttl,
        record@.rdata == record.rdata@,
        record@.parsed_addr == seqs::view_of_option(record.parsed_addr),
        record@.parsed_name == seqs::view_of_option(record.parsed_name),
{
}

/// What a message says.
pub proof fn law_message_says_what_it_holds(pkt: DnsPacket)
    ensures
        pkt@.txid == pkt.txid,
        pkt@.is_response == pkt.is_response,
        pkt@.opcode == pkt.opcode,
        pkt@.aa == pkt.aa,
        pkt@.truncated == pkt.truncated,
        pkt@.rd == pkt.rd,
        pkt@.ra == pkt.ra,
        pkt@.rcode == pkt.rcode,
        pkt@.questions == seqs::views(pkt.questions@),
        pkt@.answers == seqs::views(pkt.answers@),
        pkt@.authority == seqs::views(pkt.authority@),
        pkt@.additional == seqs::views(pkt.additional@),
        pkt@.edns == pkt.edns,
{
}

/// What an IP header says.
pub proof fn law_ip_header_says_what_it_holds(header: IpHeader)
    ensures
        header@.src == header.src@,
        header@.dst == header.dst@,
        header@.protocol == header.protocol,
        header@.ttl == header.ttl,
{
}

/// What an NXDOMAIN response says.
pub proof fn law_entry_says_what_it_holds(entry: NxdomainEntry)
    ensures
        entry@.ts == entry.ts,
        entry@.name == entry.name@,
{
}

/// What a tracker says.
pub proof fn law_tracker_says_what_it_holds(tracker: NxdomainTracker)
    ensures
        tracker@.entries == seqs::views(tracker.entries@),
        tracker@.flood_reported == tracker.flood_reported,
        tracker@.slow_reported == tracker.slow_reported,
{
}

/// What a captured frame says.
pub proof fn law_frame_says_what_it_holds(frame: CapturedFrame)
    ensures
        frame@.ts == frame.ts,
        frame@.data == frame.data@,
{
}

/// What a message with its addresses says.
pub proof fn law_sent_message_says_what_it_holds(sent: SentMessage)
    ensures
        sent@.pkt == sent.pkt@,
        sent@.src == sent.src@,
        sent@.dst == sent.dst@,
{
}

/// What a causal chain says.
pub proof fn law_chain_says_what_it_holds(chain: CausalChain)
    ensures
        chain@.kind == chain.kind@,
        chain@.description == chain.description@,
        chain@.evidence_ts == chain.evidence_ts@,
        chain@.evidence_notes == seqs::views(chain.evidence_notes@),
        chain@.severity == chain.severity@,
{
}

/// What a root cause report says.
pub proof fn law_root_cause_says_what_it_holds(found: RootCauseReport)
    ensures
        found@.primary == found.primary@,
        found@.primary_description == found.primary_description@,
        found@.chains == seqs::views(found.chains@),
        found@.has_critical == found.has_critical,
{
}

/// What a report says.
pub proof fn law_report_says_what_it_holds(full: FullReport)
    ensures
        full@.total_packets == full.total_packets,
        full@.dns_packets == full.dns_packets,
        full@.duration_us == full.duration_us,
        full@.events == seqs::views(full.events@),
        full@.summary == full.summary@,
        full@.root_cause == full.root_cause@,
{
}

} // verus!
