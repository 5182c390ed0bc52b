//! Summaries: which step measurements a summary reads, and which way it
//! reduces them to one scalar.
use vstd::prelude::*;

use crate::experiment::SummaryDef;
use crate::text::{chars_eq, chars_of};
use crate::types::{Aggregation, SummaryError};

verus! {

/// A measurement emitted by a step, as the summary logic reads it.
#[derive(Debug, Clone)]
pub struct StepOutcome {
    /// Step that emitted the measurement.
    pub step: String,
    /// Measurement name.
    pub name: String,
    /// Tags in emission order; keys are distinct.
    pub tags: Vec<(String, String)>,
    /// Whether the measured value is a number.
    pub numeric: bool,
}

/// How the matched values of a summary become its scalar.
#[derive(Debug, Clone, Copy, PartialEq, Eq, Structural)]
pub enum Reduction {
    /// Nothing matched: the summary has no value.
    NoMatch,
    /// Exactly one value matched and no aggregation was given: it is the value.
    Single,
    /// The values are combined by the given aggregation.
    Aggregate(Aggregation),
}

/// The value of tag `key`, if the tag is present.
pub open spec fn tag_value(tags: Seq<(String, String)>, key: Seq<char>) -> Option<Seq<char>>
    decreases tags.len(),
{
    if tags.len() == 0 {
        None
    } else if tags[0].0@ == key {
        Some(tags[0].1@)
    } else {
        tag_value(tags.drop_first(), key)
    }
}

/// Every `key = value` pair of the filter is a tag of the measurement.
pub open spec fn filter_holds(filter: Seq<(String, String)>, tags: Seq<(String, String)>) -> bool {
    forall|i: int|
        #![trigger filter[i]]
        0 <= i < filter.len() ==> tag_value(tags, filter[i].0@) == Some(filter[i].1@)
}

/// The summary reads this measurement: same step, same name, every filter
/// tag present with its value, and a numeric value.
pub open spec fn selects(def: SummaryDef, o: StepOutcome) -> bool {
    &&& o.step@ == def.step@
    &&& o.name@ == def.measurement@
    &&& filter_holds(def.filter@, o.tags@)
    &&& o.numeric
}

/// Positions, in order, of the first `n` outcomes that the summary reads.
pub open spec fn selected_indices(def: SummaryDef, s: Seq<StepOutcome>, n: int) -> Seq<int>
    decreases n,
{
    if n <= 0 {
        Seq::empty()
    } else if selects(def, s[n - 1]) {
        selected_indices(def, s, n - 1).push(n - 1)
    } else {
        selected_indices(def, s, n - 1)
    }
}

/// The reduction a summary applies to `matches` matched values.
pub open spec fn reduction_of(aggregation: Option<Aggregation>, matches: nat) -> Result<
    Reduction,
    SummaryError,
> {
    if matches == 0 {
        Ok(Reduction::NoMatch)
    } else {
        match aggregation {
            Some(a) => Ok(Reduction::Aggregate(a)),
            None => if matches == 1 {
                Ok(Reduction::Single)
            } else {
                Err(SummaryError::AmbiguousAggregation { matches: matches as usize })
            },
        }
    }
}

fn same(a: &String, b: &String) -> (r: bool)
    ensures
        r == (a@ == b@),
{
    let av = chars_of(a.as_str());
    let bv = chars_of(b.as_str());
    chars_eq(&av, &bv)
}

/// Whether tag `key` is present with value `value`.
pub fn tag_is(tags: &[(String, String)], key: &String, value: &String) -> (r: bool)
    ensures
        r == (tag_value(tags@, key@) == Some(value@)),
{
    let mut k: usize = 0;
    assert(tags@.subrange(0, tags@.len() as int) == tags@);
    while k < tags.len()
        invariant
            k <= tags@.len(),
            tag_value(tags@, key@) == tag_value(tags@.subrange(k as int, tags@.len() as int), key@),
        decreases tags.len() - k,
    {
        let ghost rest = tags@.subrange(k as int, tags@.len() as int);
        assert(rest.drop_first() == tags@.subrange(k + 1, tags@.len() as int));
        if same(&tags[k].0, key) {
            return same(&tags[k].1, value);
        }
        k = k + 1;
    }
    assert(tags@.subrange(k as int, tags@.len() as int).len() == 0);
    false
}

/// Whether every pair of `filter` is a tag of the measurement.
pub fn filter_matches(filter: &[(String, String)], tags: &[(String, String)]) -> (r: bool)
    ensures
        r == filter_holds(filter@, tags@),
{
    let mut k: usize = 0;
    while k < filter.len()
        invariant
            k <= filter@.len(),
            forall|i: int|
                #![trigger filter@[i]]
                0 <= i < k ==> tag_value(tags@, filter@[i].0@) == Some(filter@[i].1@),
        decreases filter.len() - k,
    {
        if !tag_is(tags, &filter[k].0, &filter[k].1) {
            return false;
        }
        k = k + 1;
    }
    true
}

impl SummaryDef {
    /// Whether this summary reads the measurement.
    pub fn selects(&self, o: &StepOutcome) -> (r: bool)
        ensures
            r == selects(*self, *o),
    {
        o.numeric && same(&o.step, &self.step) && same(&o.name, &self.measurement)
            && filter_matches(self.filter.as_slice(), o.tags.as_slice())
    }

    /// Positions of the measurements this summary reads, in order.
    pub fn matching_indices(&self, outcomes: &[StepOutcome]) -> (r: Vec<usize>)
        ensures
            r@.map_values(|i: usize| i as int) == selected_indices(*self, outcomes@, outcomes@.len() as int),
    {
        let mut r: Vec<usize> = Vec::new();
        let mut k: usize = 0;
        while k < outcomes.len()
            invariant
                k <= outcomes@.len(),
                r@.map_values(|i: usize| i as int) == selected_indices(*self, outcomes@, k as int),
            decreases outcomes.len() - k,
        {
            let ghost before = r@;
            if self.selects(&outcomes[k]) {
                r.push(k);
                assert(r@.map_values(|i: usize| i as int) == before.map_values(|i: usize| i as int).push(
                    k as int,
                ));
            }
            k = k + 1;
        }
        r
    }

    /// How `matches` matched values become this summary's scalar: none
    /// matched gives no value; with an aggregation the values are combined;
    /// without one a single value is taken as it is, and more than one is
    /// an ambiguous aggregation.
    pub fn reduction(&self, matches: usize) -> (r: Result<Reduction, SummaryError>)
        ensures
            r == reduction_of(self.aggregation, matches as nat),
    {
        if matches == 0 {
            return Ok(Reduction::NoMatch);
        }
        match self.aggregation {
            Some(a) => Ok(Reduction::Aggregate(a)),
            None => if matches == 1 {
                Ok(Reduction::Single)
            } else {
                Err(SummaryError::AmbiguousAggregation { matches })
            },
        }
    }
}

} // verus!
