//! Counting the events that have a property.

use vstd::prelude::*;

use crate::event::EventModel;
use crate::seqs;

verus! {

/// How many events have a property.
pub open spec fn count(events: Seq<EventModel>, p: spec_fn(EventModel) -> bool) -> nat {
    events.filter(p).len()
}

pub proof fn lemma_count_concat(
    a: Seq<EventModel>,
    b: Seq<EventModel>,
    p: spec_fn(EventModel) -> bool,
)
    ensures
        count(a + b, p) == count(a, p) + count(b, p),
{
    Seq::filter_distributes_over_add(a, b, p);
}

pub proof fn lemma_count_none(events: Seq<EventModel>, p: spec_fn(EventModel) -> bool)
    requires
        forall|i: int| 0 <= i < events.len() ==> !p(#[trigger] events[i]),
    ensures
        count(events, p) == 0,
{
    seqs::lemma_filter_none(events, p);
}

pub proof fn lemma_count_empty(p: spec_fn(EventModel) -> bool)
    ensures
        count(Seq::empty(), p) == 0,
{
    reveal(Seq::filter);
}

pub proof fn lemma_count_one(event: EventModel, p: spec_fn(EventModel) -> bool)
    ensures
        count(seq![event], p) == (if p(event) {
            1nat
        } else {
            0nat
        }),
{
    reveal(Seq::filter);
    lemma_count_empty(p);
    assert(seq![event].drop_last() =~= Seq::empty());
}

pub proof fn lemma_count_push(
    events: Seq<EventModel>,
    event: EventModel,
    p: spec_fn(EventModel) -> bool,
)
    ensures
        count(events.push(event), p) == count(events, p) + (if p(event) {
            1nat
        } else {
            0nat
        }),
{
    assert(events.push(event) =~= events + seq![event]);
    lemma_count_concat(events, seq![event], p);
    lemma_count_one(event, p);
}

} // verus!
