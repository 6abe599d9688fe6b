//! The statistics session that owns the loaded day collection and the
//! designated "today" entry.

use vstd::prelude::*;
use crate::day::{date_wf, Date, Day};
use crate::events::{events_of, read_events};
use crate::loader::{load_from_events, spec_load, Anomaly, LoadError, LoadOutcome};

verus! {

/// The statistics session: the ordered day collection reconstructed by the
/// last load, the index of the entry designated `today`, and the opaque
/// "most productive day" label that an external collaborator computes.
pub struct Statistics {
    all_days: Vec<Day>,
    today: Option<usize>,
    productive_day: String,
}

impl Statistics {
    /// The day collection, in document order.
    pub closed spec fn spec_days(&self) -> Seq<Day> {
        self.all_days@
    }

    /// The index of the designated `today` entry, if a load has run.
    pub closed spec fn spec_today(&self) -> Option<int> {
        match self.today {
            Some(t) => Some(t as int),
            None => None,
        }
    }

    pub closed spec fn spec_productive_day(&self) -> Seq<char> {
        self.productive_day@
    }

    /// The designated index, when present, points into the collection.
    pub closed spec fn wf(&self) -> bool {
        self.today matches Some(t) ==> t < self.all_days.len()
    }

    /// An empty session: no days, no designated today, an empty label.
    pub fn new() -> (r: Statistics)
        ensures
            r.spec_days() == Seq::<Day>::empty(),
            r.spec_today() is None,
            r.spec_productive_day() == Seq::<char>::empty(),
            r.wf(),
    {
        Statistics { all_days: Vec::new(), today: None, productive_day: String::new() }
    }

    /// Tokenizes the given document bytes and rebuilds the day collection
    /// from them, replacing the session's days and designated today.
    /// Recovered anomalies are handed back on success; on a
    /// `MalformedDocument` failure the session is left unchanged.
    pub fn load_days(&mut self, bytes: &Vec<u8>, now: Date) -> (r: Result<Vec<Anomaly>, LoadError>)
        requires
            old(self).wf(),
            date_wf(now),
        ensures
            final(self).wf(),
            final(self).spec_productive_day() == old(self).spec_productive_day(),
            match spec_load(events_of(bytes@), now) {
                Ok(o) => {
                    &&& r matches Ok(a) && a@ == o.anomalies
                    &&& final(self).spec_days() == o.days
                    &&& final(self).spec_today() == Some(o.today)
                },
                Err(e) => {
                    &&& r matches Err(e2) && e2 == e
                    &&& *final(self) == *old(self)
                },
            },
    {
        let events = read_events(bytes);
        match load_from_events(&events, now) {
            Ok(outcome) => {
                let LoadOutcome { days, today, anomalies } = outcome;
                self.all_days = days;
                self.today = Some(today);
                Ok(anomalies)
            },
            Err(e) => Err(e),
        }
    }

    /// A copy of the day collection in document order, for read-only
    /// iteration by a presentation-layer adapter.
    pub fn days_model(&self) -> (r: Vec<Day>)
        ensures
            r@ == self.spec_days(),
    {
        let mut out: Vec<Day> = Vec::new();
        let mut i: usize = 0;
        while i < self.all_days.len()
            invariant
                i <= self.all_days.len(),
                out@ =~= self.all_days@.take(i as int),
            decreases self.all_days.len() - i,
        {
            out.push(self.all_days[i]);
            proof {
                assert(self.all_days@.take(i + 1).drop_last() =~= self.all_days@.take(i as int));
            }
            i = i + 1;
        }
        proof {
            assert(self.all_days@.take(self.all_days@.len() as int) =~= self.all_days@);
        }
        out
    }

    /// The entry designated `today`, if a load has designated one.
    pub fn today(&self) -> (r: Option<Day>)
        requires
            self.wf(),
        ensures
            match self.spec_today() {
                Some(t) => r == Some(self.spec_days()[t]),
                None => r is None,
            },
    {
        match self.today {
            Some(t) => Some(self.all_days[t]),
            None => None,
        }
    }

    /// The label of the most productive day. Its computation belongs to an
    /// external collaborator; this session only stores the value.
    pub fn productive_day(&self) -> (r: String)
        ensures
            r@ == self.spec_productive_day(),
    {
        self.productive_day.clone()
    }

    /// Stores the label that the external collaborator computed.
    pub fn set_productive_day(&mut self, label: String)
        ensures
            final(self).spec_productive_day() == label@,
            final(self).spec_days() == old(self).spec_days(),
            final(self).spec_today() == old(self).spec_today(),
            final(self).wf() == old(self).wf(),
    {
        self.productive_day = label;
    }

    /// Writing the collection back to storage is not part of this
    /// component; the interface keeps the operation as a deliberate no-op.
    pub fn save(&self) {
    }
}

} // verus!
