//! The times to live that responses give to names.

use vstd::hash_map::StringHashMap;
use vstd::prelude::*;

use crate::dns::{DnsRecord, QType, RecordModel};
use crate::event::{DnsEvent, EventModel};
use crate::seqs;

verus! {

/// Times to live that differ by this factor are an anomaly.
pub const TTL_ANOMALY_FACTOR: u64 = 10;

/// The range of the times to live seen for one name.
#[derive(Debug, Clone, Copy, PartialEq, Eq, Structural)]
pub struct TtlObservation {
    pub ttl_min: u32,
    pub ttl_max: u32,
    pub reported: bool,
}

impl TtlObservation {
    /// The range of a single time to live.
    pub open spec fn single(ttl: u32) -> TtlObservation {
        TtlObservation { ttl_min: ttl, ttl_max: ttl, reported: false }
    }

    /// The range that also holds `ttl`.
    pub open spec fn widened(self, ttl: u32) -> TtlObservation {
        TtlObservation {
            ttl_min: if ttl < self.ttl_min {
                ttl
            } else {
                self.ttl_min
            },
            ttl_max: if ttl > self.ttl_max {
                ttl
            } else {
                self.ttl_max
            },
            reported: self.reported,
        }
    }

    /// A wide range is due to be reported.
    pub open spec fn is_anomaly(self) -> bool {
        &&& !self.reported
        &&& 0 < self.ttl_min
        &&& 0 < self.ttl_max
        &&& self.ttl_max >= TTL_ANOMALY_FACTOR * self.ttl_min
    }

    /// The observation once the report that is due has been made.
    pub open spec fn after_report(self) -> TtlObservation {
        TtlObservation { reported: self.reported || self.is_anomaly(), ..self }
    }
}

/// Whether the time to live of a record counts: that of the EDNS0 pseudo-record
/// means something else, and zero forbids caching.
pub open spec fn is_observed(record: RecordModel) -> bool {
    record.rtype != QType::OPT && record.ttl != 0
}

/// The range for the name of a record, with that record in it.
pub open spec fn range_with(
    seen: Map<Seq<char>, TtlObservation>,
    record: RecordModel,
) -> TtlObservation {
    if seen.contains_key(record.name) {
        seen[record.name].widened(record.ttl)
    } else {
        TtlObservation::single(record.ttl)
    }
}

/// What has been seen after one more record.
pub open spec fn seen_with(
    seen: Map<Seq<char>, TtlObservation>,
    record: RecordModel,
) -> Map<Seq<char>, TtlObservation> {
    if is_observed(record) {
        seen.insert(record.name, range_with(seen, record).after_report())
    } else {
        seen
    }
}

/// The report that one more record gives rise to.
pub open spec fn report_of(
    seen: Map<Seq<char>, TtlObservation>,
    record: RecordModel,
    server: Seq<char>,
) -> Seq<EventModel> {
    let range = range_with(seen, record);
    if is_observed(record) && range.is_anomaly() {
        seq![
            EventModel::TtlAnomaly {
                name: record.name,
                ttl_min: range.ttl_min,
                ttl_max: range.ttl_max,
                server,
            },
        ]
    } else {
        Seq::empty()
    }
}

/// What has been seen after some records, in their order.
pub open spec fn seen_after(
    seen: Map<Seq<char>, TtlObservation>,
    records: Seq<RecordModel>,
) -> Map<Seq<char>, TtlObservation>
    decreases records.len(),
{
    if records.len() == 0 {
        seen
    } else {
        seen_with(seen_after(seen, records.drop_last()), records.last())
    }
}

/// The reports that some records give rise to, in their order.
pub open spec fn reports_of(
    seen: Map<Seq<char>, TtlObservation>,
    records: Seq<RecordModel>,
    server: Seq<char>,
) -> Seq<EventModel>
    decreases records.len(),
{
    if records.len() == 0 {
        Seq::empty()
    } else {
        reports_of(seen, records.drop_last(), server) + report_of(
            seen_after(seen, records.drop_last()),
            records.last(),
            server,
        )
    }
}

/// Takes note of the times to live in the records of a response from `server`,
/// and reports the names whose range has become wide.
pub fn observe_records(
    seen: &mut StringHashMap<TtlObservation>,
    records: &Vec<DnsRecord>,
    server: &str,
    events: &mut Vec<DnsEvent>,
)
    ensures
        final(seen)@ == seen_after(old(seen)@, seqs::views(records@)),
        seqs::views(final(events)@) == seqs::views(old(events)@) + reports_of(
            old(seen)@,
            seqs::views(records@),
            server@,
        ),
{
    let ghost all = seqs::views(records@);
    let ghost start = seen@;
    let ghost before = seqs::views(events@);
    let mut i: usize = 0;
    assert(before + Seq::empty() =~= before);
    while i < records.len()
        invariant
            i <= records.len(),
            all == seqs::views(records@),
            seen@ == seen_after(start, all.take(i as int)),
            seqs::views(events@) == before + reports_of(start, all.take(i as int), server@),
        decreases records.len() - i,
    {
        let record = &records[i];
        proof {
            assert(all.take(i + 1).drop_last() =~= all.take(i as int));
            assert(all.take(i + 1).last() == record@);
        }
        let ghost now = seen@;
        if record.rtype != QType::OPT && record.ttl != 0 {
            let mut range: TtlObservation = match seen.get(record.name.as_str()) {
                Some(known) => *known,
                None => TtlObservation {
                    ttl_min: record.ttl,
                    ttl_max: record.ttl,
                    reported: false,
                },
            };
            if record.ttl < range.ttl_min {
                range.ttl_min = record.ttl;
            }
            if record.ttl > range.ttl_max {
                range.ttl_max = record.ttl;
            }
            assert(range == range_with(now, record@));
            if !range.reported && range.ttl_min > 0 && range.ttl_max > 0 && range.ttl_max as u64
                >= TTL_ANOMALY_FACTOR * range.ttl_min as u64 {
                range.reported = true;
                let event = DnsEvent::TtlAnomaly {
                    name: record.name.clone(),
                    ttl_min: range.ttl_min,
                    ttl_max: range.ttl_max,
                    server: server.to_string(),
                };
                proof {
                    seqs::lemma_views_push(events@, event);
                }
                events.push(event);
            }
            seen.insert(record.name.clone(), range);
        }
        assert(seqs::views(events@) =~= before + (reports_of(start, all.take(i as int), server@)
            + report_of(now, record@, server@)));
        i = i + 1;
    }
    assert(all.take(i as int) =~= all);
}

} // verus!
