//! The parse/aggregate pipeline: the element-stack state machine that
//! turns an event stream into `Day` records, specified by a pure
//! transition function and executed by a verified single pass.

use vstd::prelude::*;
use crate::day::{date_wf, same_day, spec_same_day, Date, Day};
use crate::events::{Attribute, XmlEvent};
use crate::text::{parse_date, parse_u32, spec_parse_date, spec_parse_u32};

verus! {

/// The closed vocabulary of recognized element names.
#[derive(Clone, Copy, Debug, PartialEq, Eq, Structural)]
pub enum StatisticsElement {
    Day,
    Worktime,
    Breaktime,
    Statistics,
}

/// What [`StatisticsElement::from_name`] returns: the vocabulary entry for
/// a recognized local name, nothing for any other name.
pub open spec fn spec_from_name(s: Seq<char>) -> Option<StatisticsElement> {
    if s == "day"@ {
        Some(StatisticsElement::Day)
    } else if s == "worktime"@ {
        Some(StatisticsElement::Worktime)
    } else if s == "breaktime"@ {
        Some(StatisticsElement::Breaktime)
    } else if s == "statistics"@ {
        Some(StatisticsElement::Statistics)
    } else {
        None
    }
}

impl StatisticsElement {
    /// Maps a case-sensitive local element name to the vocabulary.
    pub fn from_name(name: &str) -> (r: Option<Self>)
        ensures
            r == spec_from_name(name@),
    {
        if name.to_owned() == "day".to_owned() {
            Some(StatisticsElement::Day)
        } else if name.to_owned() == "worktime".to_owned() {
            Some(StatisticsElement::Worktime)
        } else if name.to_owned() == "breaktime".to_owned() {
            Some(StatisticsElement::Breaktime)
        } else if name.to_owned() == "statistics".to_owned() {
            Some(StatisticsElement::Statistics)
        } else {
            None
        }
    }
}

/// One entry of the element stack. A well-formed `day` element carries the
/// date parsed from its attribute; `Skip` marks a malformed or unrecognized
/// subtree, whose entire content is suppressed.
#[derive(Clone, Copy, Debug, PartialEq, Eq, Structural)]
pub enum Tag {
    Day(Date),
    Worktime,
    Breaktime,
    Statistics,
    Skip,
}

/// A recoverable per-element anomaly: the offending unit of data is
/// dropped and the load continues.
#[derive(Clone, Copy, Debug, PartialEq, Eq, Structural)]
pub enum Anomaly {
    MalformedAttribute,
    MalformedCount,
    UnrecognizedElement,
}

/// A failure of the whole load: no partial result is produced.
#[derive(Clone, Copy, Debug, PartialEq, Eq, Structural)]
pub enum LoadError {
    StreamOpenError,
    MalformedDocument,
}

/// The aggregation state while consuming the event stream.
#[verifier::ext_equal]
pub struct StateV {
    pub stack: Seq<Tag>,
    pub worktime: u32,
    pub breaktime: u32,
    pub days: Seq<Day>,
    pub today: Option<int>,
    pub anomalies: Seq<Anomaly>,
    pub malformed: bool,
}

pub open spec fn init_state() -> StateV {
    StateV {
        stack: Seq::empty(),
        worktime: 0,
        breaktime: 0,
        days: Seq::empty(),
        today: None,
        anomalies: Seq::empty(),
        malformed: false,
    }
}

/// The first attribute named `date`, if any.
pub open spec fn spec_find_date(attrs: Seq<Attribute>, i: int) -> Option<String>
    decreases attrs.len() - i,
{
    if i < 0 || i >= attrs.len() {
        None
    } else if attrs[i].name@ == "date"@ {
        Some(attrs[i].value)
    } else {
        spec_find_date(attrs, i + 1)
    }
}

/// The stack entry that a start-of-element event pushes when its enclosing
/// context is not itself skipped: the vocabulary entry for a recognized
/// name (with the parsed date for a well-formed `day`), `Skip` for a `day`
/// without a parsable `date` attribute and for an unrecognized name.
pub open spec fn spec_start_tag(name: String, attrs: Seq<Attribute>) -> Tag {
    match spec_from_name(name@) {
        Some(StatisticsElement::Day) => match spec_find_date(attrs, 0) {
            Some(v) => match spec_parse_date(v@) {
                Some(d) => Tag::Day(d),
                None => Tag::Skip,
            },
            None => Tag::Skip,
        },
        Some(StatisticsElement::Worktime) => Tag::Worktime,
        Some(StatisticsElement::Breaktime) => Tag::Breaktime,
        Some(StatisticsElement::Statistics) => Tag::Statistics,
        None => Tag::Skip,
    }
}

/// The anomaly that a start-of-element event records, if any.
pub open spec fn spec_start_anomaly(name: String, attrs: Seq<Attribute>) -> Option<Anomaly> {
    match spec_from_name(name@) {
        Some(StatisticsElement::Day) => match spec_find_date(attrs, 0) {
            Some(v) => if spec_parse_date(v@) is Some {
                None
            } else {
                Some(Anomaly::MalformedAttribute)
            },
            None => Some(Anomaly::MalformedAttribute),
        },
        Some(_) => None,
        None => Some(Anomaly::UnrecognizedElement),
    }
}

pub open spec fn push_anomaly(s: Seq<Anomaly>, a: Option<Anomaly>) -> Seq<Anomaly> {
    match a {
        Some(x) => s.push(x),
        None => s,
    }
}

/// One transition of the aggregation state machine, for one event.
pub open spec fn step(st: StateV, ev: XmlEvent, now: Date) -> StateV {
    match ev {
        XmlEvent::StartDocument => st,
        XmlEvent::StartElement { name, attributes } => if st.stack.len() > 0 && st.stack.last()
            is Skip {
            StateV { stack: st.stack.push(Tag::Skip), ..st }
        } else {
            StateV {
                stack: st.stack.push(spec_start_tag(name, attributes@)),
                anomalies: push_anomaly(st.anomalies, spec_start_anomaly(name, attributes@)),
                ..st
            }
        },
        XmlEvent::Characters(c) => if st.stack.len() > 0 && st.stack.last() is Worktime {
            match spec_parse_u32(c@) {
                Some(n) => StateV { worktime: n, ..st },
                None => StateV { anomalies: st.anomalies.push(Anomaly::MalformedCount), ..st },
            }
        } else if st.stack.len() > 0 && st.stack.last() is Breaktime {
            match spec_parse_u32(c@) {
                Some(n) => StateV { breaktime: n, ..st },
                None => StateV { anomalies: st.anomalies.push(Anomaly::MalformedCount), ..st },
            }
        } else {
            st
        },
        XmlEvent::EndElement => if st.stack.len() == 0 {
            st
        } else {
            match st.stack.last() {
                Tag::Day(d) => StateV {
                    stack: st.stack.drop_last(),
                    worktime: 0,
                    breaktime: 0,
                    days: st.days.push(
                        Day { date: d, worktime: st.worktime, breaktime: st.breaktime },
                    ),
                    today: if st.today is None && spec_same_day(d, now) {
                        Some(st.days.len() as int)
                    } else {
                        st.today
                    },
                    ..st
                },
                _ => StateV { stack: st.stack.drop_last(), ..st },
            }
        },
        XmlEvent::EndDocument => if st.stack.len() > 0 {
            StateV { malformed: true, ..st }
        } else {
            st
        },
        XmlEvent::Malformed => st,
        XmlEvent::Other => st,
    }
}

/// The state machine folded over a whole event sequence.
pub open spec fn run(events: Seq<XmlEvent>, now: Date, st: StateV) -> StateV
    decreases events.len(),
{
    if events.len() == 0 {
        st
    } else {
        run(events.drop_first(), now, step(st, events.first(), now))
    }
}

pub proof fn lemma_run_push(events: Seq<XmlEvent>, ev: XmlEvent, now: Date, st: StateV)
    ensures
        run(events.push(ev), now, st) == step(run(events, now, st), ev, now),
    decreases events.len(),
{
    assert(run(events.push(ev), now, st) == run(
        events.push(ev).drop_first(),
        now,
        step(st, events.push(ev).first(), now),
    ));
    if events.len() == 0 {
        assert(events.push(ev).drop_first() =~= Seq::<XmlEvent>::empty());
        assert(events.push(ev).first() == ev);
        assert(run(events.push(ev), now, st) == step(st, ev, now));
        assert(run(events, now, st) == st);
    } else {
        assert(events.push(ev).first() == events.first());
        assert(events.push(ev).drop_first() =~= events.drop_first().push(ev));
        lemma_run_push(events.drop_first(), ev, now, step(st, events.first(), now));
        assert(run(events, now, st) == run(events.drop_first(), now, step(st, events.first(), now)));
    }
}

/// What a whole load produces: the ordered day collection, the index of the
/// designated `today` entry, and the anomalies recovered along the way.
#[verifier::ext_equal]
pub struct OutcomeV {
    pub days: Seq<Day>,
    pub today: int,
    pub anomalies: Seq<Anomaly>,
}

/// The post-parse fallback: when no parsed day was designated `today`, one
/// empty day for the reference date is synthesized, appended and
/// designated.
pub open spec fn finalize(st: StateV, now: Date) -> OutcomeV {
    match st.today {
        Some(t) => OutcomeV { days: st.days, today: t, anomalies: st.anomalies },
        None => OutcomeV {
            days: st.days.push(Day { date: now, worktime: 0, breaktime: 0 }),
            today: st.days.len() as int,
            anomalies: st.anomalies,
        },
    }
}

/// The whole load as a function of the event stream and the reference
/// date: a `MalformedDocument` failure when the element stack was not
/// empty at an end-of-document event, the finalized outcome otherwise.
pub open spec fn spec_load(events: Seq<XmlEvent>, now: Date) -> Result<OutcomeV, LoadError> {
    let fin = run(events, now, init_state());
    if fin.malformed {
        Err(LoadError::MalformedDocument)
    } else {
        Ok(finalize(fin, now))
    }
}

/// What a successful load hands back: the `Day` collection in document
/// order, the index of the designated `today` entry, and the recovered
/// anomalies.
pub struct LoadOutcome {
    pub days: Vec<Day>,
    pub today: usize,
    pub anomalies: Vec<Anomaly>,
}

impl View for LoadOutcome {
    type V = OutcomeV;

    open spec fn view(&self) -> OutcomeV {
        OutcomeV { days: self.days@, today: self.today as int, anomalies: self.anomalies@ }
    }
}

struct ParseState {
    stack: Vec<Tag>,
    worktime: u32,
    breaktime: u32,
    days: Vec<Day>,
    today: Option<usize>,
    anomalies: Vec<Anomaly>,
    malformed: bool,
}

impl View for ParseState {
    type V = StateV;

    closed spec fn view(&self) -> StateV {
        StateV {
            stack: self.stack@,
            worktime: self.worktime,
            breaktime: self.breaktime,
            days: self.days@,
            today: match self.today {
                Some(t) => Some(t as int),
                None => None,
            },
            anomalies: self.anomalies@,
            malformed: self.malformed,
        }
    }
}

impl ParseState {
    /// Every date on the stack was parsed, hence is well-formed, and the
    /// designated index always points into the day collection.
    spec fn wf(&self) -> bool {
        &&& forall|i: int|
            0 <= i < self.stack@.len() ==> (#[trigger] self.stack@[i] matches Tag::Day(d)
                ==> date_wf(d))
        &&& self.today matches Some(t) ==> t < self.days.len()
    }
}

/// The first attribute named `date`, if any.
fn find_date(attrs: &Vec<Attribute>) -> (r: Option<String>)
    ensures
        r == spec_find_date(attrs@, 0),
{
    let mut i: usize = 0;
    while i < attrs.len()
        invariant
            i <= attrs.len(),
            spec_find_date(attrs@, 0) == spec_find_date(attrs@, i as int),
        decreases attrs.len() - i,
    {
        if attrs[i].name.clone() == "date".to_owned() {
            return Some(attrs[i].value.clone());
        }
        i = i + 1;
    }
    None
}

/// Advances the aggregation state by one event, exactly as [`step`]
/// describes.
fn apply_event(st: &mut ParseState, ev: &XmlEvent, now: Date)
    requires
        old(st).wf(),
        date_wf(now),
    ensures
        final(st)@ == step(old(st)@, *ev, now),
        final(st).wf(),
{
    match ev {
        XmlEvent::StartDocument => {},
        XmlEvent::StartElement { name, attributes } => {
            let n = st.stack.len();
            if n > 0 && matches!(st.stack[n - 1], Tag::Skip) {
                st.stack.push(Tag::Skip);
            } else {
                match StatisticsElement::from_name(name.as_str()) {
                    Some(StatisticsElement::Day) => match find_date(attributes) {
                        Some(v) => match parse_date(v.as_str()) {
                            Some(d) => {
                                proof {
                                    crate::text::lemma_parse_date_wf(v@);
                                }
                                st.stack.push(Tag::Day(d));
                            },
                            None => {
                                st.stack.push(Tag::Skip);
                                st.anomalies.push(Anomaly::MalformedAttribute);
                            },
                        },
                        None => {
                            st.stack.push(Tag::Skip);
                            st.anomalies.push(Anomaly::MalformedAttribute);
                        },
                    },
                    Some(StatisticsElement::Worktime) => st.stack.push(Tag::Worktime),
                    Some(StatisticsElement::Breaktime) => st.stack.push(Tag::Breaktime),
                    Some(StatisticsElement::Statistics) => st.stack.push(Tag::Statistics),
                    None => {
                        st.stack.push(Tag::Skip);
                        st.anomalies.push(Anomaly::UnrecognizedElement);
                    },
                }
            }
        },
        XmlEvent::Characters(c) => {
            let n = st.stack.len();
            if n > 0 && matches!(st.stack[n - 1], Tag::Worktime) {
                match parse_u32(c.as_str()) {
                    Some(count) => st.worktime = count,
                    None => st.anomalies.push(Anomaly::MalformedCount),
                }
            } else if n > 0 && matches!(st.stack[n - 1], Tag::Breaktime) {
                match parse_u32(c.as_str()) {
                    Some(count) => st.breaktime = count,
                    None => st.anomalies.push(Anomaly::MalformedCount),
                }
            }
        },
        XmlEvent::EndElement => {
            if st.stack.len() > 0 {
                match st.stack.pop() {
                    Some(Tag::Day(d)) => {
                        let day = Day::new(d, st.worktime, st.breaktime);
                        if st.today.is_none() && same_day(&d, &now) {
                            st.today = Some(st.days.len());
                        }
                        st.days.push(day);
                        st.worktime = 0;
                        st.breaktime = 0;
                    },
                    _ => {},
                }
            }
        },
        XmlEvent::EndDocument => {
            if st.stack.len() > 0 {
                st.malformed = true;
            }
        },
        XmlEvent::Malformed => {},
        XmlEvent::Other => {},
    }
}

/// Consumes a whole event stream and produces the day collection, exactly
/// as [`spec_load`] describes: `Day` records in document order, one per
/// well-formed `day` element, the first one matching the reference date
/// designated `today` (with a synthesized empty day when none matches),
/// and one anomaly per recovered per-element defect.
pub fn load_from_events(events: &Vec<XmlEvent>, now: Date) -> (r: Result<LoadOutcome, LoadError>)
    requires
        date_wf(now),
    ensures
        match r {
            Ok(o) => spec_load(events@, now) == Ok::<OutcomeV, LoadError>(o@) && o.today
                < o.days.len(),
            Err(e) => spec_load(events@, now) == Err::<OutcomeV, LoadError>(e),
        },
{
    let mut st = ParseState {
        stack: Vec::new(),
        worktime: 0,
        breaktime: 0,
        days: Vec::new(),
        today: None,
        anomalies: Vec::new(),
        malformed: false,
    };
    proof {
        assert(st@ =~= init_state());
    }
    let mut i: usize = 0;
    while i < events.len()
        invariant
            i <= events.len(),
            date_wf(now),
            st.wf(),
            st@ == run(events@.take(i as int), now, init_state()),
        decreases events.len() - i,
    {
        apply_event(&mut st, &events[i], now);
        proof {
            assert(events@.take(i + 1).drop_last() =~= events@.take(i as int));
            assert(events@.take(i as int).push(events@[i as int]) =~= events@.take(i + 1));
            lemma_run_push(events@.take(i as int), events@[i as int], now, init_state());
        }
        i = i + 1;
    }
    proof {
        assert(events@.take(events@.len() as int) =~= events@);
    }
    if st.malformed {
        return Err(LoadError::MalformedDocument);
    }
    let ParseState { days: mut days, today, anomalies, .. } = st;
    let today_index: usize = match today {
        Some(t) => t,
        None => {
            let t = days.len();
            days.push(Day::new(now, 0, 0));
            t
        },
    };
    let outcome = LoadOutcome { days, today: today_index, anomalies };
    proof {
        assert(outcome@ =~= finalize(run(events@, now, init_state()), now));
    }
    Ok(outcome)
}

} // verus!
