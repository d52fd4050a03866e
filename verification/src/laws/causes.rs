//! Laws of the root cause report.

use vstd::prelude::*;

use crate::domain;
use crate::event::{EventModel, Severity, TimedModel};
use crate::root_cause;
use crate::root_cause::{ChainModel, RootCauseKind, RootCauseModel};
use crate::seqs;

verus! {

/// The severity of an event is low for normal traffic, and only for that.
pub proof fn law_normal_traffic_is_info(event: EventModel)
    ensures
        event.severity() == Severity::Info <==> event is QuerySent || event is ResponseReceived,
{
}

/// The name of a cause leads back to it.
pub proof fn law_title_names_its_cause(kind: RootCauseKind)
    ensures
        RootCauseKind::with_title(kind.title()) == kind,
{
    reveal_strlit("DNS Tunneling");
    reveal_strlit("DGA Activity");
    reveal_strlit("Subdomain Probing");
    reveal_strlit("Rogue Resolver");
    reveal_strlit("Server Unreachable");
    reveal_strlit("Fast-Flux Infrastructure");
    reveal_strlit("Network Instability");
    reveal_strlit("Clean");
    assert(RootCauseKind::DnsTunneling.title().len() == 13);
    assert(RootCauseKind::DgaActivity.title().len() == 12);
    assert(RootCauseKind::SubdomainProbing.title().len() == 17);
    assert(RootCauseKind::RogueResolver.title().len() == 14);
    assert(RootCauseKind::ServerUnreachable.title().len() == 18);
    assert(RootCauseKind::FastFlux.title().len() == 24);
    assert(RootCauseKind::NetworkInstability.title().len() == 19);
    assert(RootCauseKind::Clean.title().len() == 5);
}

/// The chains of the critical causes.
#[verifier::opaque]
pub open spec fn critical_chains(events: Seq<TimedModel>) -> Seq<ChainModel> {
    four(
        root_cause::chain_of(RootCauseKind::DnsTunneling, events),
        root_cause::chain_of(RootCauseKind::DgaActivity, events),
        root_cause::chain_of(RootCauseKind::SubdomainProbing, events),
        root_cause::chain_of(RootCauseKind::RogueResolver, events),
    )
}

/// The chains of the other causes.
#[verifier::opaque]
pub open spec fn warning_chains(events: Seq<TimedModel>) -> Seq<ChainModel> {
    four(
        root_cause::chain_of(RootCauseKind::ServerUnreachable, events),
        root_cause::chain_of(RootCauseKind::FastFlux, events),
        root_cause::chain_of(RootCauseKind::NetworkInstability, events),
        None,
    )
}

/// Up to four chains.
pub open spec fn four(
    a: Option<ChainModel>,
    b: Option<ChainModel>,
    c: Option<ChainModel>,
    d: Option<ChainModel>,
) -> Seq<ChainModel> {
    root_cause::chain_if_any(a) + root_cause::chain_if_any(b) + root_cause::chain_if_any(c)
        + root_cause::chain_if_any(d)
}

proof fn lemma_four(
    a: Option<ChainModel>,
    b: Option<ChainModel>,
    c: Option<ChainModel>,
    d: Option<ChainModel>,
)
    ensures
        forall|i: int|
            0 <= i < four(a, b, c, d).len() ==> {
                let chain = Some(#[trigger] four(a, b, c, d)[i]);
                a == chain || b == chain || c == chain || d == chain
            },
        a is Some ==> four(a, b, c, d).contains(a->0),
        b is Some ==> four(a, b, c, d).contains(b->0),
        c is Some ==> four(a, b, c, d).contains(c->0),
        d is Some ==> four(a, b, c, d).contains(d->0),
{
    let w = root_cause::chain_if_any(a);
    let x = root_cause::chain_if_any(b);
    let y = root_cause::chain_if_any(c);
    let all = four(a, b, c, d);
    if a is Some {
        assert(all[0] == a->0);
    }
    if b is Some {
        assert(all[w.len() as int] == b->0);
    }
    if c is Some {
        assert(all[(w + x).len() as int] == c->0);
    }
    if d is Some {
        assert(all[(w + x + y).len() as int] == d->0);
    }
}

proof fn lemma_severities_differ()
    ensures
        "Critical"@ != "Warning"@,
{
    reveal_strlit("Critical");
    reveal_strlit("Warning");
    assert("Critical"@.len() != "Warning"@.len());
}

proof fn lemma_in_parts(events: Seq<TimedModel>)
    ensures
        root_cause::chains_of(events) == critical_chains(events) + warning_chains(events),
{
    reveal(critical_chains);
    reveal(warning_chains);
    let a = root_cause::chain_if_any(root_cause::chain_of(RootCauseKind::DnsTunneling, events));
    let b = root_cause::chain_if_any(root_cause::chain_of(RootCauseKind::DgaActivity, events));
    let c = root_cause::chain_if_any(
        root_cause::chain_of(RootCauseKind::SubdomainProbing, events),
    );
    let d = root_cause::chain_if_any(root_cause::chain_of(RootCauseKind::RogueResolver, events));
    let e = root_cause::chain_if_any(
        root_cause::chain_of(RootCauseKind::ServerUnreachable, events),
    );
    let f = root_cause::chain_if_any(root_cause::chain_of(RootCauseKind::FastFlux, events));
    let g = root_cause::chain_if_any(
        root_cause::chain_of(RootCauseKind::NetworkInstability, events),
    );
    assert(a + b + c + d + e + f + g =~= (a + b + c + d) + (e + f + g + Seq::empty()));
}

proof fn lemma_of_cause(events: Seq<TimedModel>)
    ensures
        forall|i: int|
            0 <= i < critical_chains(events).len() ==> exists|kind: RootCauseKind|
                kind.is_critical() && #[trigger] root_cause::chain_of(kind, events) == Some(
                    #[trigger] critical_chains(events)[i],
                ),
        forall|i: int|
            0 <= i < warning_chains(events).len() ==> exists|kind: RootCauseKind|
                !kind.is_critical() && #[trigger] root_cause::chain_of(kind, events) == Some(
                    #[trigger] warning_chains(events)[i],
                ),
        forall|kind: RootCauseKind|
            kind.is_critical() && (#[trigger] root_cause::chain_of(kind, events)) is Some
                ==> critical_chains(events).contains(root_cause::chain_of(kind, events)->0),
        forall|kind: RootCauseKind|
            !kind.is_critical() && kind != RootCauseKind::Clean && (
            #[trigger] root_cause::chain_of(kind, events)) is Some ==> warning_chains(
                events,
            ).contains(root_cause::chain_of(kind, events)->0),
{
    reveal(critical_chains);
    reveal(warning_chains);
    let a = root_cause::chain_of(RootCauseKind::DnsTunneling, events);
    let b = root_cause::chain_of(RootCauseKind::DgaActivity, events);
    let c = root_cause::chain_of(RootCauseKind::SubdomainProbing, events);
    let d = root_cause::chain_of(RootCauseKind::RogueResolver, events);
    let e = root_cause::chain_of(RootCauseKind::ServerUnreachable, events);
    let f = root_cause::chain_of(RootCauseKind::FastFlux, events);
    let g = root_cause::chain_of(RootCauseKind::NetworkInstability, events);
    lemma_four(a, b, c, d);
    lemma_four(e, f, g, None);
    assert(RootCauseKind::DnsTunneling.is_critical());
    assert(RootCauseKind::DgaActivity.is_critical());
    assert(RootCauseKind::SubdomainProbing.is_critical());
    assert(RootCauseKind::RogueResolver.is_critical());
    assert(!RootCauseKind::ServerUnreachable.is_critical());
    assert(!RootCauseKind::FastFlux.is_critical());
    assert(!RootCauseKind::NetworkInstability.is_critical());
}

proof fn lemma_by_severity(events: Seq<TimedModel>)
    ensures
        root_cause::of_severity(root_cause::chains_of(events), "Critical"@) == critical_chains(
            events,
        ),
        root_cause::of_severity(root_cause::chains_of(events), "Warning"@) == warning_chains(
            events,
        ),
{
    let critical = critical_chains(events);
    let warning = warning_chains(events);
    let is_critical = |chain: ChainModel| chain.severity == "Critical"@;
    let is_warning = |chain: ChainModel| chain.severity == "Warning"@;
    lemma_in_parts(events);
    lemma_of_cause(events);
    lemma_severities_differ();
    assert forall|i: int| 0 <= i < critical.len() implies (#[trigger] critical[i]).severity
        == "Critical"@ by {
        let kind = choose|kind: RootCauseKind|
            kind.is_critical() && #[trigger] root_cause::chain_of(kind, events) == Some(
                critical[i],
            );
        assert(kind.severity() == "Critical"@);
    }
    assert forall|i: int| 0 <= i < warning.len() implies (#[trigger] warning[i]).severity
        == "Warning"@ by {
        let kind = choose|kind: RootCauseKind|
            !kind.is_critical() && #[trigger] root_cause::chain_of(kind, events) == Some(
                warning[i],
            );
        assert(kind.severity() == "Warning"@);
    }
    Seq::filter_distributes_over_add(critical, warning, is_critical);
    Seq::filter_distributes_over_add(critical, warning, is_warning);
    seqs::lemma_filter_all(critical, is_critical);
    seqs::lemma_filter_none(critical, is_warning);
    seqs::lemma_filter_none(warning, is_critical);
    seqs::lemma_filter_all(warning, is_warning);
    assert(critical + Seq::empty() =~= critical);
    assert(Seq::empty() + warning =~= warning);
}

/// Whether one of the chains is that of a cause.
pub open spec fn has_chain(chains: Seq<ChainModel>, kind: RootCauseKind) -> bool {
    exists|i: int| 0 <= i < chains.len() && (#[trigger] chains[i]).kind == kind.title()
}

proof fn lemma_chain_of_some_cause(events: Seq<TimedModel>, i: int)
    requires
        0 <= i < root_cause::chains_of(events).len(),
    ensures
        exists|kind: RootCauseKind| #[trigger]
            root_cause::chain_of(kind, events) == Some(root_cause::chains_of(events)[i]),
{
    let critical = critical_chains(events);
    let warning = warning_chains(events);
    lemma_in_parts(events);
    lemma_of_cause(events);
    if i < critical.len() {
        assert(root_cause::chains_of(events)[i] == critical[i]);
    } else {
        assert(root_cause::chains_of(events)[i] == warning[i - critical.len()]);
    }
}

/// A cause has a chain where there is enough evidence for it, and only there;
/// normal traffic has none.
pub proof fn law_chain_for_every_cause_with_evidence(
    kind: RootCauseKind,
    events: Seq<TimedModel>,
)
    ensures
        has_chain(root_cause::chains_of(events), kind) <==> root_cause::evidence(
            kind,
            events,
        ).len() >= kind.threshold(),
{
    let chains = root_cause::chains_of(events);
    if root_cause::evidence(kind, events).len() >= kind.threshold() {
        if kind == RootCauseKind::Clean {
            seqs::lemma_filter_none(events, |te: TimedModel| kind.is_shown_by(te.event));
        }
        let chain = root_cause::chain_of(kind, events)->0;
        lemma_chain_is_listed(kind, events);
        let i = choose|i: int| 0 <= i < chains.len() && chains[i] == chain;
        assert(chains[i].kind == kind.title());
    }
    if has_chain(chains, kind) {
        let i = choose|i: int| 0 <= i < chains.len() && (#[trigger] chains[i]).kind
            == kind.title();
        lemma_chain_of_some_cause(events, i);
        let other = choose|other: RootCauseKind| #[trigger]
            root_cause::chain_of(other, events) == Some(chains[i]);
        law_title_names_its_cause(kind);
        law_title_names_its_cause(other);
    }
}

proof fn lemma_chain_is_listed(kind: RootCauseKind, events: Seq<TimedModel>)
    requires
        kind != RootCauseKind::Clean,
        root_cause::chain_of(kind, events) is Some,
    ensures
        root_cause::chains_of(events).contains(root_cause::chain_of(kind, events)->0),
{
    let chain = root_cause::chain_of(kind, events)->0;
    let critical = critical_chains(events);
    let warning = warning_chains(events);
    lemma_in_parts(events);
    lemma_of_cause(events);
    if kind.is_critical() {
        let i = choose|i: int| 0 <= i < critical.len() && critical[i] == chain;
        assert(root_cause::chains_of(events)[i] == chain);
    } else {
        let i = choose|i: int| 0 <= i < warning.len() && warning[i] == chain;
        assert(root_cause::chains_of(events)[critical.len() + i] == chain);
    }
}

/// Events that are no anomalies point to no cause.
pub proof fn law_no_anomaly_is_clean(events: Seq<TimedModel>)
    requires
        forall|i: int|
            0 <= i < events.len() ==> (#[trigger] events[i]).event.severity() == Severity::Info,
    ensures
        root_cause::report_on(events) == (RootCauseModel {
            primary: RootCauseKind::Clean.title(),
            primary_description: RootCauseKind::Clean.meaning(),
            chains: Seq::empty(),
            has_critical: false,
        }),
{
    assert forall|kind: RootCauseKind| (#[trigger] root_cause::evidence(kind, events)).len()
        == 0 by {
        seqs::lemma_filter_none(events, |te: TimedModel| kind.is_shown_by(te.event));
    }
    assert(root_cause::evidence(RootCauseKind::DnsTunneling, events).len() == 0);
    assert(root_cause::evidence(RootCauseKind::DgaActivity, events).len() == 0);
    assert(root_cause::evidence(RootCauseKind::SubdomainProbing, events).len() == 0);
    assert(root_cause::evidence(RootCauseKind::RogueResolver, events).len() == 0);
    assert(root_cause::evidence(RootCauseKind::ServerUnreachable, events).len() == 0);
    assert(root_cause::evidence(RootCauseKind::FastFlux, events).len() == 0);
    assert(root_cause::evidence(RootCauseKind::NetworkInstability, events).len() == 0);
    assert(root_cause::chains_of(events) =~= Seq::empty());
    lemma_by_severity(events);
}

/// The report is critical where one of the events is a sign of an attack.
pub proof fn law_critical_report_has_critical_event(events: Seq<TimedModel>)
    ensures
        root_cause::report_on(events).has_critical <==> exists|i: int|
            0 <= i < events.len() && is_attack((#[trigger] events[i]).event),
{
    lemma_by_severity(events);
    if critical_chains(events).len() > 0 {
        lemma_critical_event(events);
    }
    if exists|i: int| 0 <= i < events.len() && is_attack((#[trigger] events[i]).event) {
        let i = choose|i: int| 0 <= i < events.len() && is_attack((#[trigger] events[i]).event);
        lemma_shown_once(cause_of_attack(events[i].event), events, i);
        lemma_critical_chain(cause_of_attack(events[i].event), events);
    }
}

proof fn lemma_critical_event(events: Seq<TimedModel>)
    requires
        critical_chains(events).len() > 0,
    ensures
        exists|i: int| 0 <= i < events.len() && is_attack((#[trigger] events[i]).event),
{
    lemma_of_cause(events);
    let kind = choose|kind: RootCauseKind|
        kind.is_critical() && #[trigger] root_cause::chain_of(kind, events) == Some(
            critical_chains(events)[0],
        );
    let keep = |te: TimedModel| kind.is_shown_by(te.event);
    let shown = root_cause::evidence(kind, events);
    events.lemma_filter_pred(keep, 0);
    events.lemma_filter_contains_rev(keep, shown[0]);
    let i = choose|i: int| 0 <= i < events.len() && events[i] == shown[0];
    assert(is_attack(events[i].event));
}

proof fn lemma_critical_chain(kind: RootCauseKind, events: Seq<TimedModel>)
    requires
        kind.is_critical(),
        root_cause::evidence(kind, events).len() > 0,
    ensures
        critical_chains(events).len() > 0,
{
    lemma_of_cause(events);
    assert(root_cause::chain_of(kind, events) is Some);
}

/// The cause that a sign of an attack shows.
pub open spec fn cause_of_attack(event: EventModel) -> RootCauseKind {
    if event is TunnelingIndicator {
        RootCauseKind::DnsTunneling
    } else if event is NxdomainFlood {
        RootCauseKind::DgaActivity
    } else if event is SlowNxdomainProbe {
        RootCauseKind::SubdomainProbing
    } else {
        RootCauseKind::RogueResolver
    }
}

pub proof fn lemma_shown_once(kind: RootCauseKind, events: Seq<TimedModel>, i: int)
    requires
        0 <= i < events.len(),
        kind.is_shown_by(events[i].event),
    ensures
        root_cause::evidence(kind, events).len() > 0,
{
    let keep = |te: TimedModel| kind.is_shown_by(te.event);
    events.lemma_filter_contains(keep, i);
}

/// Whether an event is a sign of an attack.
pub open spec fn is_attack(event: EventModel) -> bool {
    ||| event is TunnelingIndicator
    ||| event is NxdomainFlood
    ||| RootCauseKind::SubdomainProbing.is_shown_by(event)
    ||| event is DuplicateResponse
    ||| event is UnsolicitedResponse
}

/// The primary cause is that of the first chain, and normal traffic where there
/// is no chain; it is critical where one of the chains is.
pub proof fn law_primary_is_first_chain(events: Seq<TimedModel>)
    ensures
        ({
            let report = root_cause::report_on(events);
            &&& report.chains.len() == 0 ==> report.primary == RootCauseKind::Clean.title()
            &&& report.chains.len() > 0 ==> report.primary == report.chains[0].kind
                && report.primary_description == report.chains[0].description
            &&& report.has_critical <==> report.chains.len() > 0 && report.chains[0].severity
                == "Critical"@
        }),
{
    lemma_by_severity(events);
    lemma_in_parts(events);
    lemma_severities_differ();
    let chains = root_cause::chains_of(events);
    if chains.len() > 0 {
        lemma_chain_of_some_cause(events, 0);
        let kind = choose|kind: RootCauseKind| #[trigger]
            root_cause::chain_of(kind, events) == Some(chains[0]);
        law_title_names_its_cause(kind);
        lemma_first_severity(events);
        if critical_chains(events).len() > 0 {
            assert(chains[0] == critical_chains(events)[0]);
        } else {
            assert(chains[0] == warning_chains(events)[0]);
        }
    }
}

proof fn lemma_first_severity(events: Seq<TimedModel>)
    ensures
        critical_chains(events).len() > 0 ==> critical_chains(events)[0].severity
            == "Critical"@,
        warning_chains(events).len() > 0 ==> warning_chains(events)[0].severity == "Warning"@,
{
    let chains = root_cause::chains_of(events);
    let is_critical = |chain: ChainModel| chain.severity == "Critical"@;
    let is_warning = |chain: ChainModel| chain.severity == "Warning"@;
    lemma_by_severity(events);
    if critical_chains(events).len() > 0 {
        chains.lemma_filter_pred(is_critical, 0);
    }
    if warning_chains(events).len() > 0 {
        chains.lemma_filter_pred(is_warning, 0);
    }
}

/// A chain lists its evidence: the time of each event that shows the cause, and,
/// but for an unreachable server, a note on each.
pub proof fn law_chain_lists_its_evidence(kind: RootCauseKind, events: Seq<TimedModel>)
    ensures
        root_cause::chain_of(kind, events) matches Some(chain) ==> {
            let shown = root_cause::evidence(kind, events);
            &&& chain.evidence_ts.len() == shown.len()
            &&& chain.evidence_ts.len() >= 1
            &&& forall|i: int|
                0 <= i < shown.len() ==> #[trigger] chain.evidence_ts[i] == shown[i].ts
            &&& kind != RootCauseKind::ServerUnreachable ==> chain.evidence_notes.len()
                == shown.len() && forall|i: int|
                0 <= i < shown.len() ==> #[trigger] chain.evidence_notes[i]
                    == root_cause::note_of(shown[i].event)
        },
{
}

/// A duplicate or an unsolicited response points to a rogue resolver, and makes
/// the report critical.
pub proof fn law_spoofing_points_to_rogue_resolver(events: Seq<TimedModel>, i: int)
    requires
        0 <= i < events.len(),
        events[i].event is UnsolicitedResponse || events[i].event is DuplicateResponse,
    ensures
        has_chain(root_cause::report_on(events).chains, RootCauseKind::RogueResolver),
        root_cause::report_on(events).has_critical,
{
    lemma_shown_once(RootCauseKind::RogueResolver, events, i);
    law_chain_for_every_cause_with_evidence(RootCauseKind::RogueResolver, events);
    assert(is_attack(events[i].event));
    law_critical_report_has_critical_event(events);
}

/// Every name lies under the domain that the names have in common.
pub proof fn law_every_name_lies_under_common_base(all: Seq<Seq<char>>, i: int)
    requires
        0 <= i < all.len(),
    ensures
        domain::common_base(all) matches Some(base) ==> domain::is_under(all[i], base),
{
}

} // verus!
