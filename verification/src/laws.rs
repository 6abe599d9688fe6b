//! The general laws of the pipeline, proved once for every document: how
//! many records a load produces, which record is designated "today", and
//! that unrecognized subtrees leave the result untouched.

use vstd::prelude::*;
use crate::day::{spec_same_day, Date, Day};
use crate::events::{Attribute, XmlEvent};
use crate::loader::{
    init_state, run, spec_from_name, spec_load, spec_start_tag, step, StateV, Tag,
};

verus! {

/// The designation discipline: when no entry is designated, no entry
/// matches the reference day; when one is, it is the first matching entry.
pub open spec fn today_ok(st: StateV, now: Date) -> bool {
    match st.today {
        Option::None => forall|i: int|
            0 <= i < st.days.len() ==> !spec_same_day(#[trigger] st.days[i].date, now),
        Option::Some(t) => {
            &&& 0 <= t < st.days.len()
            &&& spec_same_day(st.days[t].date, now)
            &&& forall|j: int| 0 <= j < t ==> !spec_same_day(#[trigger] st.days[j].date, now)
        },
    }
}

proof fn lemma_step_today_ok(st: StateV, ev: XmlEvent, now: Date)
    requires
        today_ok(st, now),
    ensures
        today_ok(step(st, ev, now), now),
{
}

proof fn lemma_run_today_ok(events: Seq<XmlEvent>, now: Date, st: StateV)
    requires
        today_ok(st, now),
    ensures
        today_ok(run(events, now, st), now),
    decreases events.len(),
{
    if events.len() > 0 {
        lemma_step_today_ok(st, events.first(), now);
        lemma_run_today_ok(events.drop_first(), now, step(st, events.first(), now));
    }
}

/// Law: exactly one entry is ever designated `today`. On every successful
/// load the designated index points into the collection, its entry falls on
/// the reference day, and no earlier entry does — so of several `day`
/// elements whose dates equal the reference day, only the first in
/// document order is designated.
pub proof fn lemma_first_match_designated(events: Seq<XmlEvent>, now: Date)
    ensures
        spec_load(events, now) matches Ok(o) ==> {
            &&& 0 <= o.today < o.days.len()
            &&& spec_same_day(o.days[o.today].date, now)
            &&& forall|j: int| 0 <= j < o.today ==> !spec_same_day(#[trigger] o.days[j].date, now)
        },
{
    lemma_run_today_ok(events, now, init_state());
}

/// The number of `day` elements with a parsable `date` attribute that are
/// opened outside any suppressed subtree and completed within `events`,
/// starting from element stack `stack`.
pub open spec fn completed_days(events: Seq<XmlEvent>, stack: Seq<Tag>) -> nat
    decreases events.len(),
{
    if events.len() == 0 {
        0
    } else {
        let rest = events.drop_first();
        match events.first() {
            XmlEvent::StartElement { name, attributes } => {
                let tag = if stack.len() > 0 && stack.last() is Skip {
                    Tag::Skip
                } else {
                    spec_start_tag(name, attributes@)
                };
                completed_days(rest, stack.push(tag))
            },
            XmlEvent::EndElement => if stack.len() == 0 {
                completed_days(rest, stack)
            } else if stack.last() is Day {
                (completed_days(rest, stack.drop_last()) + 1) as nat
            } else {
                completed_days(rest, stack.drop_last())
            },
            _ => completed_days(rest, stack),
        }
    }
}

proof fn lemma_run_day_count(events: Seq<XmlEvent>, now: Date, st: StateV)
    ensures
        run(events, now, st).days.len() == st.days.len() + completed_days(events, st.stack),
    decreases events.len(),
{
    if events.len() > 0 {
        let st2 = step(st, events.first(), now);
        lemma_run_day_count(events.drop_first(), now, st2);
    }
}

/// Law: the number of `Day` entries that a successful load produces equals
/// the number of well-formed `day` elements completed in the document,
/// plus exactly one synthesized entry when none of the parsed entries
/// falls on the reference day.
pub proof fn lemma_day_count(events: Seq<XmlEvent>, now: Date)
    ensures
        spec_load(events, now) matches Ok(o) ==> {
            let c = completed_days(events, Seq::<Tag>::empty());
            &&& c <= o.days.len() <= c + 1
            &&& (o.days.len() == c + 1 <==> forall|i: int|
                0 <= i < c ==> !spec_same_day(#[trigger] o.days[i].date, now))
        },
{
    lemma_run_day_count(events, now, init_state());
    lemma_run_today_ok(events, now, init_state());
}

/// Law: a document in which no well-formed `day` element completes yields
/// exactly one entry — a synthesized empty day for the reference date,
/// designated `today`.
pub proof fn lemma_empty_document_synthesis(events: Seq<XmlEvent>, now: Date)
    requires
        completed_days(events, Seq::<Tag>::empty()) == 0,
    ensures
        spec_load(events, now) matches Ok(o) ==> {
            &&& o.days.len() == 1
            &&& o.today == 0
            &&& o.days[0] == (Day { date: now, worktime: 0, breaktime: 0 })
        },
{
    lemma_run_day_count(events, now, init_state());
    lemma_run_today_ok(events, now, init_state());
}

/// Two machine states that agree on everything but the anomalies they
/// recorded.
pub open spec fn similar(a: StateV, b: StateV) -> bool {
    &&& a.stack == b.stack
    &&& a.worktime == b.worktime
    &&& a.breaktime == b.breaktime
    &&& a.days == b.days
    &&& a.today == b.today
    &&& a.malformed == b.malformed
}

proof fn lemma_step_similar(a: StateV, b: StateV, ev: XmlEvent, now: Date)
    requires
        similar(a, b),
    ensures
        similar(step(a, ev, now), step(b, ev, now)),
{
}

proof fn lemma_run_similar(events: Seq<XmlEvent>, now: Date, a: StateV, b: StateV)
    requires
        similar(a, b),
    ensures
        similar(run(events, now, a), run(events, now, b)),
    decreases events.len(),
{
    if events.len() > 0 {
        lemma_step_similar(a, b, events.first(), now);
        lemma_run_similar(events.drop_first(), now, step(a, events.first(), now), step(b, events.first(), now));
    }
}

proof fn lemma_run_append(a: Seq<XmlEvent>, b: Seq<XmlEvent>, now: Date, st: StateV)
    ensures
        run(a + b, now, st) == run(b, now, run(a, now, st)),
    decreases a.len(),
{
    if a.len() == 0 {
        assert(a + b =~= b);
    } else {
        assert((a + b).first() == a.first());
        assert((a + b).drop_first() =~= a.drop_first() + b);
        lemma_run_append(a.drop_first(), b, now, step(st, a.first(), now));
    }
}

/// How much deeper the element nesting is after an event: one element
/// opened, one closed, or neither.
pub open spec fn elem_delta(ev: XmlEvent) -> int {
    match ev {
        XmlEvent::StartElement { .. } => 1,
        XmlEvent::EndElement => -1,
        _ => 0,
    }
}

/// The net nesting depth of an event sequence.
pub open spec fn depth(events: Seq<XmlEvent>) -> int
    decreases events.len(),
{
    if events.len() == 0 {
        0
    } else {
        elem_delta(events.first()) + depth(events.drop_first())
    }
}

/// The content of one whole element: no document boundary is reached, no
/// prefix closes more elements than it opened, and every opened element is
/// closed again.
pub open spec fn subtree_content(events: Seq<XmlEvent>) -> bool {
    &&& forall|i: int| 0 <= i < events.len() ==> !((#[trigger] events[i]) is EndDocument)
    &&& forall|i: int| 0 <= i <= events.len() ==> depth(#[trigger] events.take(i)) >= 0
    &&& depth(events) == 0
}

/// A stack of `n` suppressed entries.
pub open spec fn skips(n: nat) -> Seq<Tag> {
    Seq::new(n, |i: int| Tag::Skip)
}

/// Inside a suppressed subtree every event only pushes or pops further
/// suppressed entries: as long as the nesting never falls back out of the
/// zone, the state is untouched apart from those entries.
proof fn lemma_skip_zone(events: Seq<XmlEvent>, st: StateV, base: Seq<Tag>, j: nat, now: Date)
    requires
        j >= 1,
        st.stack == base + skips(j),
        forall|i: int| 0 <= i < events.len() ==> !((#[trigger] events[i]) is EndDocument),
        forall|i: int| 0 <= i < events.len() ==> j + depth(#[trigger] events.take(i)) >= 1,
        j + depth(events) >= 0,
    ensures
        run(events, now, st) == (StateV {
            stack: base + skips((j + depth(events)) as nat),
            ..st
        }),
    decreases events.len(),
{
    if events.len() == 0 {
        assert(events.take(0) =~= events);
        assert(st == (StateV { stack: base + skips((j + depth(events)) as nat), ..st }));
    } else {
        let ev = events.first();
        let rest = events.drop_first();
        assert(events.take(0) =~= Seq::<XmlEvent>::empty());
        assert(j + depth(events.take(0)) >= 1);
        assert(st.stack.len() == base.len() + j);
        assert(st.stack.last() == skips(j).last());
        assert(st.stack.last() is Skip);
        let j2 = (j + elem_delta(ev)) as nat;
        let st2 = step(st, ev, now);
        match ev {
            XmlEvent::StartElement { .. } => {
                assert(st2.stack =~= base + skips(j2)) by {
                    assert((base + skips(j)).push(Tag::Skip) =~= base + skips((j + 1) as nat));
                }
                assert(st2 == (StateV { stack: base + skips(j2), ..st }));
            },
            XmlEvent::EndElement => {
                assert(st2.stack =~= base + skips(j2)) by {
                    assert((base + skips(j)).drop_last() =~= base + skips((j - 1) as nat));
                }
                assert(st2 == (StateV { stack: base + skips(j2), ..st }));
            },
            _ => {
                assert(st2 == st);
                assert(j2 == j);
            },
        }
        assert forall|i: int| 0 <= i < rest.len() implies j2 + depth(#[trigger] rest.take(i))
            >= 1 by {
            assert(events.take(i + 1).first() == ev);
            assert(events.take(i + 1).drop_first() =~= rest.take(i));
            assert(depth(events.take(i + 1)) == elem_delta(ev) + depth(rest.take(i)));
        }
        assert(j2 + depth(rest) >= 0) by {
            assert(depth(events) == elem_delta(ev) + depth(rest));
        }
        if rest.len() == 0 {
            assert(depth(events) == elem_delta(ev));
            assert(run(rest, now, st2) == st2);
            assert(run(events, now, st) == st2);
        } else {
            assert(j2 >= 1) by {
                assert(rest.take(0) =~= Seq::<XmlEvent>::empty());
                assert(j2 + depth(rest.take(0)) >= 1);
            }
            lemma_skip_zone(rest, st2, base, j2, now);
            assert(j2 + depth(rest) == j + depth(events));
        }
    }
}

/// Law: an unrecognized element, with any well-nested content, inserted
/// anywhere as a sibling, leaves the produced day collection and the
/// designated `today` unchanged; only the recorded anomalies may differ.
pub proof fn lemma_unrecognized_element_tolerated(
    pre: Seq<XmlEvent>,
    inner: Seq<XmlEvent>,
    post: Seq<XmlEvent>,
    name: String,
    attributes: Vec<Attribute>,
    now: Date,
)
    requires
        spec_from_name(name@) is None,
        subtree_content(inner),
    ensures
        ({
            let subtree = seq![XmlEvent::StartElement { name, attributes }] + inner + seq![
                XmlEvent::EndElement,
            ];
            let with = spec_load(pre + subtree + post, now);
            let without = spec_load(pre + post, now);
            match with {
                Ok(o1) => without matches Ok(o2) && o1.days == o2.days && o1.today == o2.today,
                Err(e1) => without matches Err(e2) && e1 == e2,
            }
        }),
{
    let se = XmlEvent::StartElement { name, attributes };
    let ee = XmlEvent::EndElement;
    let subtree = seq![se] + inner + seq![ee];
    let st1 = run(pre, now, init_state());
    lemma_run_append(pre + subtree, post, now, init_state());
    lemma_run_append(pre, subtree, now, init_state());
    lemma_run_append(pre, post, now, init_state());
    assert((pre + subtree) + post =~= pre + subtree + post);
    // One start event opens the suppressed zone, whether or not the context
    // is already suppressed.
    let st2 = step(st1, se, now);
    assert(st2.stack == st1.stack.push(Tag::Skip));
    assert(st2.stack =~= st1.stack + skips(1));
    // Its whole content stays inside the zone and leaves the state as it is.
    lemma_skip_zone(inner, st2, st1.stack, 1, now);
    let st3 = run(inner, now, st2);
    assert(st3 == (StateV { stack: st1.stack + skips(1nat), ..st2 }));
    assert(st3 == st2);
    // The matching end event closes the zone again.
    let st4 = step(st3, ee, now);
    assert(st3.stack.last() is Skip && st3.stack.len() > 0);
    assert(st4.stack =~= st1.stack);
    assert(similar(st4, st1));
    // Unfold the run over the subtree into those three parts.
    assert(run(subtree, now, st1) == st4) by {
        assert(subtree.first() == se);
        assert(subtree.drop_first() =~= inner + seq![ee]);
        lemma_run_append(inner, seq![ee], now, st2);
        assert(seq![ee].first() == ee);
        assert(seq![ee].drop_first() =~= Seq::<XmlEvent>::empty());
        assert(run(seq![ee], now, st3) == run(Seq::<XmlEvent>::empty(), now, st4));
    }
    lemma_run_similar(post, now, st4, st1);
}

} // verus!
