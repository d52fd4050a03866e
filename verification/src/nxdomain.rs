//! NXDOMAIN responses, remembered for each client and server.

use vstd::prelude::*;

use crate::event::{DnsEvent, EventModel, Timestamp};
use crate::seqs;
use crate::tables;
use crate::text;

verus! {

/// The length of the sliding window, in seconds.
pub const NXDOMAIN_FLOOD_WINDOW_SEC: u64 = 10;

/// So many NXDOMAIN responses in one window are a flood.
pub const NXDOMAIN_FLOOD_THRESHOLD: usize = 20;

/// So many NXDOMAIN responses overall, without a flood, are a slow probe.
pub const SLOW_NXDOMAIN_THRESHOLD: usize = 5;

/// A report of a flood names at most so many names.
pub const FLOOD_SAMPLE_LIMIT: usize = 5;

/// One NXDOMAIN response: when it came and for which name.
#[derive(Debug, Clone)]
pub struct NxdomainEntry {
    pub ts: Timestamp,
    pub name: String,
}

/// What an [`NxdomainEntry`] says.
pub struct EntryModel {
    pub ts: Timestamp,
    pub name: Seq<char>,
}

impl View for NxdomainEntry {
    type V = EntryModel;

    open spec fn view(&self) -> EntryModel {
        EntryModel { ts: self.ts, name: self.name@ }
    }
}

/// The NXDOMAIN responses of one server to one client.
#[derive(Debug, Clone)]
pub struct NxdomainTracker {
    pub entries: Vec<NxdomainEntry>,
    pub flood_reported: bool,
    pub slow_reported: bool,
}

/// What an [`NxdomainTracker`] remembers.
pub struct TrackerModel {
    pub entries: Seq<EntryModel>,
    pub flood_reported: bool,
    pub slow_reported: bool,
}

impl View for NxdomainTracker {
    type V = TrackerModel;

    open spec fn view(&self) -> TrackerModel {
        TrackerModel {
            entries: seqs::views(self.entries@),
            flood_reported: self.flood_reported,
            slow_reported: self.slow_reported,
        }
    }
}

/// Whether an entry lies in the window that ends at `now`.
pub open spec fn is_recent(entry: EntryModel, now: Timestamp) -> bool {
    now.at() - entry.ts.at() <= NXDOMAIN_FLOOD_WINDOW_SEC * 1_000_000
}

/// The names of entries.
pub open spec fn names_of(entries: Seq<EntryModel>) -> Seq<Seq<char>> {
    entries.map_values(|entry: EntryModel| entry.name)
}

impl TrackerModel {
    /// A tracker without entries.
    pub open spec fn empty() -> TrackerModel {
        TrackerModel { entries: Seq::empty(), flood_reported: false, slow_reported: false }
    }

    /// The entries in the window that ends at `now`.
    pub open spec fn recent(self, now: Timestamp) -> Seq<EntryModel> {
        self.entries.filter(|entry: EntryModel| is_recent(entry, now))
    }

    /// With one more entry.
    pub open spec fn with(self, entry: EntryModel) -> TrackerModel {
        TrackerModel { entries: self.entries.push(entry), ..self }
    }

    /// A flood is due to be reported.
    pub open spec fn is_flood(self, now: Timestamp) -> bool {
        !self.flood_reported && self.recent(now).len() >= NXDOMAIN_FLOOD_THRESHOLD
    }

    /// A slow probe is due to be reported.
    pub open spec fn is_slow_probe(self, now: Timestamp) -> bool {
        &&& !self.slow_reported
        &&& self.entries.len() >= SLOW_NXDOMAIN_THRESHOLD
        &&& self.recent(now).len() < NXDOMAIN_FLOOD_THRESHOLD
    }

    /// The report that is due, if there is one.
    pub open spec fn report(self, client: Seq<char>, server: Seq<char>, now: Timestamp) -> Seq<
        EventModel,
    > {
        if self.is_flood(now) {
            seq![
                EventModel::NxdomainFlood {
                    client,
                    server,
                    count: self.recent(now).len(),
                    window_sec: NXDOMAIN_FLOOD_WINDOW_SEC as nat,
                    sample_names: seqs::at_most(
                        names_of(self.recent(now)),
                        FLOOD_SAMPLE_LIMIT as int,
                    ),
                },
            ]
        } else if self.is_slow_probe(now) {
            seq![
                EventModel::SlowNxdomainProbe {
                    client,
                    server,
                    count: self.entries.len(),
                    names: names_of(self.entries),
                },
            ]
        } else {
            Seq::empty()
        }
    }

    /// The tracker once the report that is due has been made.
    pub open spec fn after_report(self, now: Timestamp) -> TrackerModel {
        TrackerModel {
            entries: self.entries,
            flood_reported: self.flood_reported || self.is_flood(now),
            slow_reported: self.slow_reported || self.is_slow_probe(now),
        }
    }
}

fn in_window(ts: Timestamp, now: Timestamp) -> (res: bool)
    ensures
        res == (now.at() - ts.at() <= NXDOMAIN_FLOOD_WINDOW_SEC * 1_000_000),
{
    now.micros() - ts.micros() <= NXDOMAIN_FLOOD_WINDOW_SEC as i64 * 1_000_000
}

impl NxdomainTracker {
    /// A tracker without entries.
    pub fn new() -> (res: Self)
        ensures
            res@ == TrackerModel::empty(),
    {
        let res = NxdomainTracker {
            entries: Vec::new(),
            flood_reported: false,
            slow_reported: false,
        };
        assert(res@.entries =~= Seq::empty());
        res
    }

    /// Remembers one more response.
    pub fn add(&mut self, ts: Timestamp, name: String)
        ensures
            final(self)@ == old(self)@.with(EntryModel { ts, name: name@ }),
    {
        proof {
            seqs::lemma_views_push(self.entries@, NxdomainEntry { ts, name });
        }
        self.entries.push(NxdomainEntry { ts, name });
    }

    /// The number of responses in the window that ends at `now`.
    pub fn count_in_window(&self, now: Timestamp) -> (res: usize)
        ensures
            res == self@.recent(now).len(),
    {
        let ghost entries = self@.entries;
        let ghost keep = |entry: EntryModel| is_recent(entry, now);
        let mut res: usize = 0;
        let mut i: usize = 0;
        while i < self.entries.len()
            invariant
                i <= self.entries.len(),
                entries == self@.entries,
                keep == |entry: EntryModel| is_recent(entry, now),
                res <= i,
                res == entries.take(i as int).filter(keep).len(),
            decreases self.entries.len() - i,
        {
            proof {
                seqs::lemma_filter_push(entries.take(i as int), entries[i as int], keep);
                assert(entries.take(i + 1) =~= entries.take(i as int).push(entries[i as int]));
            }
            if in_window(self.entries[i].ts, now) {
                res = res + 1;
            }
            i = i + 1;
        }
        assert(entries.take(i as int) =~= entries);
        res
    }

    /// The names of the responses in the window that ends at `now`, oldest
    /// first, at most `limit` of them.
    pub fn recent_names(&self, now: Timestamp, limit: usize) -> (res: Vec<String>)
        ensures
            seqs::views(res@) == seqs::at_most(names_of(self@.recent(now)), limit as int),
    {
        let ghost entries = self@.entries;
        let ghost keep = |entry: EntryModel| is_recent(entry, now);
        let mut res: Vec<String> = Vec::new();
        let mut i: usize = 0;
        while i < self.entries.len() && res.len() < limit
            invariant
                i <= self.entries.len(),
                entries == self@.entries,
                keep == |entry: EntryModel| is_recent(entry, now),
                res.len() <= limit,
                seqs::views(res@) == names_of(entries.take(i as int).filter(keep)),
            decreases self.entries.len() - i,
        {
            proof {
                seqs::lemma_filter_push(entries.take(i as int), entries[i as int], keep);
                assert(entries.take(i + 1) =~= entries.take(i as int).push(entries[i as int]));
                seqs::lemma_views_push(res@, self.entries[i as int].name);
                assert(names_of(
                    entries.take(i as int).filter(keep).push(entries[i as int]),
                ) =~= names_of(entries.take(i as int).filter(keep)).push(
                    entries[i as int].name,
                ));
            }
            if in_window(self.entries[i].ts, now) {
                res.push(self.entries[i].name.clone());
            }
            i = i + 1;
        }
        proof {
            let head = entries.take(i as int);
            let tail = entries.skip(i as int);
            assert(entries =~= head + tail);
            Seq::filter_distributes_over_add(head, tail, keep);
            let all = names_of(entries.filter(keep));
            assert(seqs::views(res@).len() == res.len());
            assert(all.take(res.len() as int) =~= names_of(head.filter(keep)));
            if i == entries.len() {
                assert(head =~= entries);
            }
            assert(seqs::views(res@) =~= seqs::at_most(all, limit as int));
        }
        res
    }

    /// The names of all responses, oldest first.
    pub fn all_names(&self) -> (res: Vec<String>)
        ensures
            seqs::views(res@) == names_of(self@.entries),
    {
        let mut res: Vec<String> = Vec::new();
        let ghost entries = self@.entries;
        let mut i: usize = 0;
        while i < self.entries.len()
            invariant
                i <= self.entries.len(),
                entries == self@.entries,
                seqs::views(res@) == names_of(entries.take(i as int)),
            decreases self.entries.len() - i,
        {
            proof {
                seqs::lemma_views_push(res@, self.entries[i as int].name);
                assert(names_of(entries.take(i + 1)) =~= names_of(entries.take(i as int)).push(
                    entries[i as int].name,
                ));
            }
            res.push(self.entries[i].name.clone());
            i = i + 1;
        }
        assert(entries.take(i as int) =~= entries);
        res
    }
}

impl NxdomainTracker {
    /// Makes the report that is due at `now`, if there is one.
    pub fn report(&mut self, client: &str, server: &str, now: Timestamp) -> (res: Vec<DnsEvent>)
        ensures
            seqs::views(res@) == old(self)@.report(client@, server@, now),
            final(self)@ == old(self)@.after_report(now),
    {
        let mut res: Vec<DnsEvent> = Vec::new();
        let count: usize = self.count_in_window(now);
        let total: usize = self.entries.len();
        if count >= NXDOMAIN_FLOOD_THRESHOLD {
            if !self.flood_reported {
                let sample_names = self.recent_names(now, FLOOD_SAMPLE_LIMIT);
                self.flood_reported = true;
                res.push(
                    DnsEvent::NxdomainFlood {
                        client: client.to_string(),
                        server: server.to_string(),
                        count,
                        window_sec: NXDOMAIN_FLOOD_WINDOW_SEC,
                        sample_names,
                    },
                );
            }
        } else if !self.slow_reported && total >= SLOW_NXDOMAIN_THRESHOLD {
            let names = self.all_names();
            self.slow_reported = true;
            res.push(
                DnsEvent::SlowNxdomainProbe {
                    client: client.to_string(),
                    server: server.to_string(),
                    count: total,
                    names,
                },
            );
        }
        assert(seqs::views(res@) =~= old(self)@.report(client@, server@, now));
        res
    }
}

/// A client and a server.
pub struct Link {
    pub client: Seq<char>,
    pub server: Seq<char>,
}

struct NxdomainRow {
    client: String,
    server: String,
    tracker: NxdomainTracker,
}

impl View for NxdomainRow {
    type V = (Link, TrackerModel);

    closed spec fn view(&self) -> (Link, TrackerModel) {
        (Link { client: self.client@, server: self.server@ }, self.tracker@)
    }
}

/// A tracker for each client and server that has one.
pub struct NxdomainTable {
    rows: Vec<NxdomainRow>,
}

impl View for NxdomainTable {
    type V = Map<Link, TrackerModel>;

    closed spec fn view(&self) -> Map<Link, TrackerModel> {
        tables::map_of(seqs::views(self.rows@))
    }
}

/// The tracker of a client and a server: a new one where there is none yet.
pub open spec fn tracker_of(trackers: Map<Link, TrackerModel>, link: Link) -> TrackerModel {
    if trackers.contains_key(link) {
        trackers[link]
    } else {
        TrackerModel::empty()
    }
}

impl NxdomainTable {
    /// No two trackers are for the same client and server.
    pub closed spec fn wf(&self) -> bool {
        tables::distinct_keys(seqs::views(self.rows@))
    }

    /// A table without trackers.
    pub fn new() -> (res: Self)
        ensures
            res.wf(),
            res@ == Map::<Link, TrackerModel>::empty(),
    {
        NxdomainTable { rows: Vec::new() }
    }

    fn position(&self, client: &str, server: &str) -> (res: Option<usize>)
        ensures
            res matches Some(i) ==> i < self.rows.len() && self.rows[i as int]@.0 == (Link {
                client: client@,
                server: server@,
            }),
            res is None ==> forall|i: int|
                0 <= i < self.rows.len() ==> (#[trigger] self.rows[i])@.0 != (Link {
                    client: client@,
                    server: server@,
                }),
    {
        let mut i: usize = 0;
        while i < self.rows.len()
            invariant
                i <= self.rows.len(),
                forall|j: int|
                    0 <= j < i ==> (#[trigger] self.rows[j])@.0 != (Link {
                        client: client@,
                        server: server@,
                    }),
            decreases self.rows.len() - i,
        {
            if text::same_text(self.rows[i].client.as_str(), client) && text::same_text(
                self.rows[i].server.as_str(),
                server,
            ) {
                return Some(i);
            }
            i = i + 1;
        }
        None
    }

    /// Remembers an NXDOMAIN response of `server` to `client`, and makes the
    /// report that is due.
    pub fn note(&mut self, client: &str, server: &str, ts: Timestamp, name: String) -> (res: Vec<
        DnsEvent,
    >)
        requires
            old(self).wf(),
        ensures
            final(self).wf(),
            ({
                let link = Link { client: client@, server: server@ };
                let tracker = tracker_of(old(self)@, link).with(EntryModel { ts, name: name@ });
                &&& seqs::views(res@) == tracker.report(client@, server@, ts)
                &&& final(self)@ == old(self)@.insert(link, tracker.after_report(ts))
            }),
    {
        let ghost link = Link { client: client@, server: server@ };
        let ghost before = seqs::views(self.rows@);
        let found: Option<usize> = self.position(client, server);
        let at: usize = match found {
            Some(i) => {
                proof {
                    tables::lemma_map_of_row(before, i as int);
                }
                i
            },
            None => {
                let i: usize = self.rows.len();
                let row = NxdomainRow {
                    client: client.to_string(),
                    server: server.to_string(),
                    tracker: NxdomainTracker::new(),
                };
                proof {
                    seqs::lemma_views_push(self.rows@, row);
                    tables::lemma_map_of_push(before, row@);
                    assert forall|j: int| 0 <= j < before.len() implies (#[trigger] before[j]).0
                        != link by {
                        assert(before[j] == self.rows[j]@);
                    }
                    tables::lemma_map_of_absent(before, link);
                }
                self.rows.push(row);
                i
            },
        };
        let ghost middle = seqs::views(self.rows@);
        assert(middle[at as int].0 == link);
        assert(middle[at as int].1 == tracker_of(old(self)@, link));
        self.rows[at].tracker.add(ts, name);
        let res: Vec<DnsEvent> = self.rows[at].tracker.report(client, server, ts);
        proof {
            let after = seqs::views(self.rows@);
            let done = after[at as int].1;
            assert(after =~= middle.update(at as int, (link, done)));
            tables::lemma_map_of_update(middle, at as int, done);
            assert(self@ =~= old(self)@.insert(link, done));
        }
        res
    }
}

} // verus!
