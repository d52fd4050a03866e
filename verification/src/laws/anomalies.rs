//! Laws of the reports on NXDOMAIN responses and on times to live.

use vstd::prelude::*;

use crate::dns::RecordModel;
use crate::event::{EventModel, Timestamp};
use crate::laws::counting;
use crate::laws::exchanges;
use crate::nxdomain;
use crate::nxdomain::{EntryModel, Link, TrackerModel};
use crate::seqs;
use crate::ttl;
use crate::ttl::TtlObservation;

verus! {

/// Whether the range of a name has been reported.
pub open spec fn is_reported(seen: Map<Seq<char>, TtlObservation>, name: Seq<char>) -> bool {
    seen.contains_key(name) && seen[name].reported
}

/// Whether an event reports the range of a name.
pub open spec fn reports_range_of(event: EventModel, name: Seq<char>) -> bool {
    event is TtlAnomaly && event->TtlAnomaly_name == name
}

/// The range of a name is reported when it becomes wide, and never again.
pub proof fn law_wide_range_is_reported_once(
    seen: Map<Seq<char>, TtlObservation>,
    records: Seq<RecordModel>,
    server: Seq<char>,
    name: Seq<char>,
)
    ensures
        ({
            let after = ttl::seen_after(seen, records);
            &&& is_reported(seen, name) ==> is_reported(after, name)
            &&& counting::count(
                ttl::reports_of(seen, records, server),
                |event: EventModel| reports_range_of(event, name),
            ) == (if !is_reported(seen, name) && is_reported(after, name) {
                1nat
            } else {
                0nat
            })
        }),
    decreases records.len(),
{
    let p = |event: EventModel| reports_range_of(event, name);
    counting::lemma_count_empty(p);
    if records.len() > 0 {
        let front = records.drop_last();
        let record = records.last();
        law_wide_range_is_reported_once(seen, front, server, name);
        let before = ttl::seen_after(seen, front);
        let last = ttl::report_of(before, record, server);
        counting::lemma_count_concat(ttl::reports_of(seen, front, server), last, p);
        if last.len() > 0 {
            assert(last =~= seq![last[0]]);
            counting::lemma_count_one(last[0], p);
        }
    }
}

/// The range of a name holds every time to live that was seen for it.
pub proof fn law_range_holds_what_was_seen(
    seen: Map<Seq<char>, TtlObservation>,
    records: Seq<RecordModel>,
    i: int,
)
    requires
        0 <= i < records.len(),
        exchanges::is_counted(records[i]),
    ensures
        ({
            let after = ttl::seen_after(seen, records);
            &&& after.contains_key(records[i].name)
            &&& after[records[i].name].ttl_min <= records[i].ttl
                <= after[records[i].name].ttl_max
        }),
    decreases records.len(),
{
    if i < records.len() - 1 {
        law_range_holds_what_was_seen(seen, records.drop_last(), i);
        assert(records.drop_last()[i] == records[i]);
    }
}

/// What is reported of a range is that its bounds differ by the factor at least.
pub proof fn law_reported_range_is_wide(
    seen: Map<Seq<char>, TtlObservation>,
    records: Seq<RecordModel>,
    server: Seq<char>,
)
    ensures
        forall|i: int|
            0 <= i < ttl::reports_of(seen, records, server).len() ==> {
                let event = #[trigger] ttl::reports_of(seen, records, server)[i];
                &&& event is TtlAnomaly
                &&& 0 < event->TtlAnomaly_ttl_min
                &&& event->TtlAnomaly_ttl_max >= 10 * event->TtlAnomaly_ttl_min
                &&& event->TtlAnomaly_server == server
            },
    decreases records.len(),
{
    if records.len() > 0 {
        law_reported_range_is_wide(seen, records.drop_last(), server);
    }
}

/// Times to live of two records for one name that differ by the factor at least
/// are reported, if the name has not been reported before.
pub proof fn law_varying_ttl_is_reported(
    seen: Map<Seq<char>, TtlObservation>,
    records: Seq<RecordModel>,
    server: Seq<char>,
    i: int,
    j: int,
)
    requires
        0 <= i < records.len(),
        0 <= j < records.len(),
        records[i].name == records[j].name,
        exchanges::is_counted(records[i]),
        exchanges::is_counted(records[j]),
        records[i].ttl >= 10 * records[j].ttl,
        !is_reported(seen, records[i].name),
        forall|name: Seq<char>| #[trigger]
            seen.contains_key(name) ==> exchanges::coherent_range(seen[name]),
    ensures
        counting::count(
            ttl::reports_of(seen, records, server),
            |event: EventModel| reports_range_of(event, records[i].name),
        ) == 1,
{
    let name = records[i].name;
    law_wide_range_is_reported_once(seen, records, server, name);
    law_range_holds_what_was_seen(seen, records, i);
    law_range_holds_what_was_seen(seen, records, j);
    exchanges::lemma_coherent_ranges(seen, records);
}

/// The tracker after some responses from the first on, each with its report.
pub open spec fn tracker_after(entries: Seq<EntryModel>) -> TrackerModel
    decreases entries.len(),
{
    if entries.len() == 0 {
        TrackerModel::empty()
    } else {
        tracker_after(entries.drop_last()).with(entries.last()).after_report(entries.last().ts)
    }
}

/// What the last of some responses makes of the tracker, before its report.
pub open spec fn before_last_report(entries: Seq<EntryModel>) -> TrackerModel {
    tracker_after(entries.drop_last()).with(entries.last())
}

pub proof fn lemma_tracker_after(entries: Seq<EntryModel>)
    ensures
        tracker_after(entries).entries == entries,
        tracker_after(entries).slow_reported <==> entries.len() >= 5,
        tracker_after(entries).flood_reported ==> entries.len() >= 20,
    decreases entries.len(),
{
    if entries.len() > 0 {
        lemma_tracker_after(entries.drop_last());
        let last = before_last_report(entries);
        exchanges::lemma_recent_len(last, entries.last().ts);
        assert(last.entries =~= entries);
    } else {
        assert(entries =~= Seq::empty());
    }
}

/// A slow probe is reported when the responses reach its threshold, however far
/// they lie apart, and never again.
pub proof fn law_slow_probe_is_reported_at_threshold(entries: Seq<EntryModel>)
    requires
        entries.len() > 0,
    ensures
        before_last_report(entries).is_slow_probe(entries.last().ts) <==> entries.len() == 5,
{
    lemma_tracker_after(entries.drop_last());
    exchanges::lemma_recent_len(before_last_report(entries), entries.last().ts);
    assert(before_last_report(entries).entries =~= entries);
}

/// Whether all responses lie in one window.
pub open spec fn in_one_window(entries: Seq<EntryModel>) -> bool {
    forall|i: int, j: int|
        0 <= i < entries.len() && 0 <= j < entries.len() ==> nxdomain::is_recent(
            #[trigger] entries[i],
            (#[trigger] entries[j]).ts,
        )
}

proof fn lemma_all_recent(tracker: TrackerModel, now: Timestamp)
    requires
        forall|i: int|
            0 <= i < tracker.entries.len() ==> nxdomain::is_recent(
                #[trigger] tracker.entries[i],
                now,
            ),
    ensures
        tracker.recent(now) == tracker.entries,
{
    let keep = |entry: EntryModel| nxdomain::is_recent(entry, now);
    seqs::lemma_filter_all(tracker.entries, keep);
}

pub proof fn lemma_dense(entries: Seq<EntryModel>)
    requires
        in_one_window(entries),
    ensures
        tracker_after(entries).flood_reported <==> entries.len() >= 20,
        entries.len() > 0 ==> before_last_report(entries).recent(entries.last().ts) == entries,
    decreases entries.len(),
{
    if entries.len() > 0 {
        let front = entries.drop_last();
        let last = entries.last();
        assert forall|i: int, j: int|
            0 <= i < front.len() && 0 <= j < front.len() implies nxdomain::is_recent(
            #[trigger] front[i],
            (#[trigger] front[j]).ts,
        ) by {
            assert(nxdomain::is_recent(entries[i], entries[j].ts));
        }
        lemma_dense(front);
        lemma_tracker_after(front);
        assert(before_last_report(entries).entries =~= entries);
        assert forall|i: int| 0 <= i < entries.len() implies nxdomain::is_recent(
            #[trigger] entries[i],
            last.ts,
        ) by {
            assert(nxdomain::is_recent(entries[i], entries[entries.len() - 1].ts));
        }
        lemma_all_recent(before_last_report(entries), last.ts);
    }
}

/// Responses that lie in one window are reported as a flood when they reach its
/// threshold, and never again.
pub proof fn law_flood_is_reported_at_threshold(entries: Seq<EntryModel>)
    requires
        entries.len() > 0,
        in_one_window(entries),
    ensures
        before_last_report(entries).is_flood(entries.last().ts) <==> entries.len() == 20,
{
    let front = entries.drop_last();
    assert forall|i: int, j: int|
        0 <= i < front.len() && 0 <= j < front.len() implies nxdomain::is_recent(
        #[trigger] front[i],
        (#[trigger] front[j]).ts,
    ) by {
        assert(nxdomain::is_recent(entries[i], entries[j].ts));
    }
    lemma_dense(front);
    lemma_dense(entries);
}

/// Once a flood or a slow probe has been reported of a client and a server, it
/// is not reported of them again.
pub proof fn law_reports_are_not_repeated(
    tracker: TrackerModel,
    entry: EntryModel,
    client: Seq<char>,
    server: Seq<char>,
)
    ensures
        ({
            let due = tracker.with(entry);
            let next = due.after_report(entry.ts);
            let report = due.report(client, server, entry.ts);
            &&& tracker.flood_reported ==> next.flood_reported && counting::count(
                report,
                |event: EventModel| event is NxdomainFlood,
            ) == 0
            &&& tracker.slow_reported ==> next.slow_reported && counting::count(
                report,
                |event: EventModel| event is SlowNxdomainProbe,
            ) == 0
            &&& report.len() <= 1
        }),
{
    let report = tracker.with(entry).report(client, server, entry.ts);
    let flood = |event: EventModel| event is NxdomainFlood;
    let slow = |event: EventModel| event is SlowNxdomainProbe;
    if tracker.flood_reported {
        counting::lemma_count_none(report, flood);
    }
    if tracker.slow_reported {
        counting::lemma_count_none(report, slow);
    }
}

/// The first `k` responses that lie in the window which ends with the last of them.
pub open spec fn recent_at(entries: Seq<EntryModel>, k: int) -> Seq<EntryModel> {
    entries.take(k).filter(|entry: EntryModel| nxdomain::is_recent(entry, entries[k - 1].ts))
}

/// Whether as many as the threshold lie in the window which ends with response `k`.
pub open spec fn floods_at(entries: Seq<EntryModel>, k: int) -> bool {
    1 <= k <= entries.len() && recent_at(entries, k).len() >= 20
}

/// Whether that is so for the first time.
pub open spec fn is_first_flood(entries: Seq<EntryModel>, k: int) -> bool {
    floods_at(entries, k) && forall|j: int| j < k ==> !#[trigger] floods_at(entries, j)
}

/// The report of the flood that ends with response `k`.
pub open spec fn flood_of(entries: Seq<EntryModel>, k: int, link: Link) -> EventModel {
    EventModel::NxdomainFlood {
        client: link.client,
        server: link.server,
        count: recent_at(entries, k).len(),
        window_sec: 10,
        sample_names: seqs::at_most(
            nxdomain::names_of(recent_at(entries, k)),
            5,
        ),
    }
}

pub proof fn lemma_floods_grow(entries: Seq<EntryModel>)
    requires
        entries.len() > 0,
    ensures
        forall|k: int|
            1 <= k < entries.len() ==> recent_at(entries, k) == #[trigger] recent_at(
                entries.drop_last(),
                k,
            ),
        forall|k: int|
            k < entries.len() ==> (#[trigger] floods_at(entries, k) <==> floods_at(
                entries.drop_last(),
                k,
            )),
{
    let front = entries.drop_last();
    assert forall|k: int| 1 <= k < entries.len() implies recent_at(entries, k)
        == #[trigger] recent_at(front, k) by {
        assert(entries.take(k) =~= front.take(k));
        assert(entries[k - 1] == front[k - 1]);
    }
    assert forall|k: int| k < entries.len() implies (#[trigger] floods_at(entries, k)
        <==> floods_at(front, k)) by {
        assert(1 <= k < entries.len() ==> recent_at(entries, k) == recent_at(front, k));
    }
}

pub proof fn lemma_first_flood_stays(entries: Seq<EntryModel>, k: int, link: Link)
    requires
        entries.len() > 0,
        is_first_flood(entries.drop_last(), k),
    ensures
        is_first_flood(entries, k),
        flood_of(entries, k, link) == flood_of(entries.drop_last(), k, link),
{
    lemma_floods_grow(entries);
    assert(floods_at(entries, k));
    assert(recent_at(entries, k) == recent_at(entries.drop_last(), k));
}

pub proof fn lemma_flood_reported(entries: Seq<EntryModel>)
    ensures
        tracker_after(entries).flood_reported <==> exists|k: int| floods_at(entries, k),
    decreases entries.len(),
{
    if entries.len() > 0 {
        let front = entries.drop_last();
        let n = entries.len() as int;
        lemma_flood_reported(front);
        lemma_floods_grow(entries);
        lemma_tracker_after(front);
        let last = before_last_report(entries);
        assert(last.entries =~= entries);
        assert(entries.take(n) =~= entries);
        assert(last.recent(entries.last().ts) == recent_at(entries, n));
        if exists|k: int| floods_at(front, k) {
            let k = choose|k: int| floods_at(front, k);
            assert(floods_at(entries, k));
        }
        if exists|k: int| floods_at(entries, k) {
            let k = choose|k: int| floods_at(entries, k);
            if k < n {
                assert(floods_at(front, k));
            }
        }
        if last.is_flood(entries.last().ts) {
            assert(floods_at(entries, n));
        }
    }
}

/// In the records of a response, the range of a name is reported with the first
/// record that makes it wide, and with its bounds at that record.
pub proof fn law_report_comes_with_first_wide_record(
    seen: Map<Seq<char>, TtlObservation>,
    records: Seq<RecordModel>,
    server: Seq<char>,
    k: int,
)
    requires
        forall|name: Seq<char>| #[trigger]
            seen.contains_key(name) ==> exchanges::coherent_range(seen[name]),
        0 <= k < records.len(),
    ensures
        ({
            let name = records[k].name;
            let before = ttl::seen_after(seen, records.take(k));
            let after = ttl::seen_after(seen, records.take(k + 1));
            let report = ttl::report_of(before, records[k], server);
            &&& ttl::reports_of(seen, records.take(k + 1), server) == ttl::reports_of(
                seen,
                records.take(k),
                server,
            ) + report
            &&& report == if is_wide(after, name) && !is_wide(before, name) {
                seq![
                    EventModel::TtlAnomaly {
                        name,
                        ttl_min: after[name].ttl_min,
                        ttl_max: after[name].ttl_max,
                        server,
                    },
                ]
            } else {
                Seq::empty()
            }
        }),
{
    let name = records[k].name;
    assert(records.take(k + 1).drop_last() =~= records.take(k));
    assert(records.take(k + 1).last() == records[k]);
    exchanges::lemma_coherent_ranges(seen, records.take(k));
    exchanges::lemma_coherent_ranges(seen, records.take(k + 1));
    let before = ttl::seen_after(seen, records.take(k));
    let after = ttl::seen_after(seen, records.take(k + 1));
    assert(before.contains_key(name) ==> exchanges::coherent_range(before[name]));
    assert(after.contains_key(name) ==> exchanges::coherent_range(after[name]));
}

/// Whether the range of the times to live of a name is wide.
pub open spec fn is_wide(seen: Map<Seq<char>, TtlObservation>, name: Seq<char>) -> bool {
    seen.contains_key(name) && seen[name].ttl_max >= 10 * seen[name].ttl_min
}

} // verus!
