//! Parameters, the registry that names them, and the two forms of an event:
//! the sparse list of (id, value) pairs that a producer pushes and the dense,
//! id-indexed view that every condition and spectrum reads.

use vstd::prelude::*;
use crate::errors::AnalysisError;

verus! {

/// A named measured quantity, with the axis defaults that spectra take
/// from it when they are not given explicitly.
pub struct Parameter {
    id: u32,
    name: String,
    low: Option<i64>,
    high: Option<i64>,
    bins: Option<u32>,
    description: Option<String>,
}

impl Parameter {
    pub closed spec fn spec_id(&self) -> u32 {
        self.id
    }

    pub closed spec fn spec_name(&self) -> Seq<char> {
        self.name@
    }

    pub closed spec fn spec_low(&self) -> Option<i64> {
        self.low
    }

    pub closed spec fn spec_high(&self) -> Option<i64> {
        self.high
    }

    pub closed spec fn spec_bins(&self) -> Option<u32> {
        self.bins
    }

    pub closed spec fn spec_description(&self) -> Option<Seq<char>> {
        match self.description {
            Some(d) => Some(d@),
            None => None,
        }
    }

    /// A parameter with no metadata yet.
    pub fn new(name: &str, id: u32) -> (r: Parameter)
        ensures
            r.spec_id() == id,
            r.spec_name() == name@,
            r.spec_low() is None,
            r.spec_high() is None,
            r.spec_bins() is None,
    {
        Parameter { id, name: name.to_owned(), low: None, high: None, bins: None, description: None }
    }

    pub fn get_id(&self) -> (r: u32)
        ensures
            r == self.spec_id(),
    {
        self.id
    }

    pub fn get_name(&self) -> (r: String)
        ensures
            r@ == self.spec_name(),
    {
        self.name.clone()
    }

    /// The default axis limits, (low, high).
    pub fn get_limits(&self) -> (r: (Option<i64>, Option<i64>))
        ensures
            r == (self.spec_low(), self.spec_high()),
    {
        (self.low, self.high)
    }

    pub fn get_bins(&self) -> (r: Option<u32>)
        ensures
            r == self.spec_bins(),
    {
        self.bins
    }

    pub fn get_description(&self) -> (r: Option<String>)
        ensures
            r is Some <==> self.spec_description() is Some,
            r is Some ==> r->0@ == self.spec_description()->0,
    {
        match &self.description {
            Some(d) => Some(d.clone()),
            None => None,
        }
    }

    /// Sets the default axis limits; `low < high` is not checked.
    pub fn set_limits(&mut self, low: i64, high: i64)
        ensures
            final(self).spec_low() == Some(low),
            final(self).spec_high() == Some(high),
            final(self).spec_bins() == old(self).spec_bins(),
            final(self).spec_id() == old(self).spec_id(),
            final(self).spec_name() == old(self).spec_name(),
    {
        self.low = Some(low);
        self.high = Some(high);
    }

    pub fn set_bins(&mut self, bins: u32)
        ensures
            final(self).spec_bins() == Some(bins),
            final(self).spec_low() == old(self).spec_low(),
            final(self).spec_high() == old(self).spec_high(),
            final(self).spec_id() == old(self).spec_id(),
            final(self).spec_name() == old(self).spec_name(),
    {
        self.bins = Some(bins);
    }

    pub fn set_description(&mut self, description: &str)
        ensures
            final(self).spec_description() == Some(description@),
            final(self).spec_bins() == old(self).spec_bins(),
            final(self).spec_low() == old(self).spec_low(),
            final(self).spec_high() == old(self).spec_high(),
            final(self).spec_id() == old(self).spec_id(),
            final(self).spec_name() == old(self).spec_name(),
    {
        self.description = Some(description.to_owned());
    }
}

/// Registry of parameters. Ids are handed out from 1 upwards in order of
/// registration, so the parameter with id `i` is the `i`-th registered.
pub struct ParameterDictionary {
    params: Vec<Parameter>,
}

/// Index of the parameter named `name` in `ps`, if any.
pub open spec fn has_name(ps: Seq<Parameter>, name: Seq<char>) -> bool {
    exists|i: int| 0 <= i < ps.len() && ps[i].spec_name() == name
}

/// The parameter called `name` in `ps`; meaningful where `has_name` holds.
pub open spec fn named(ps: Seq<Parameter>, name: Seq<char>) -> Parameter {
    ps[choose|i: int| 0 <= i < ps.len() && ps[i].spec_name() == name]
}

impl ParameterDictionary {
    /// The registered parameters in order of registration.
    pub closed spec fn view(&self) -> Seq<Parameter> {
        self.params@
    }

    pub closed spec fn wf(&self) -> bool {
        &&& self.params@.len() < u32::MAX
        &&& forall|i: int| 0 <= i < self.params@.len() ==> #[trigger] self.params@[i].spec_id() == i + 1
        &&& forall|i: int, j: int|
            0 <= i < self.params@.len() && 0 <= j < self.params@.len() && i != j
                ==> #[trigger] self.params@[i].spec_name() != #[trigger] self.params@[j].spec_name()
    }

    pub fn new() -> (r: ParameterDictionary)
        ensures
            r.wf(),
            r@.len() == 0,
    {
        ParameterDictionary { params: Vec::new() }
    }

    pub fn len(&self) -> (r: usize)
        ensures
            r == self@.len(),
    {
        self.params.len()
    }

    /// Position of the parameter called `name`.
    fn position(&self, name: &str) -> (r: Option<usize>)
        requires
            self.wf(),
        ensures
            r is Some <==> has_name(self@, name@),
            r is Some ==> r->0 < self@.len() && self@[r->0 as int].spec_name() == name@,
    {
        let key = name.to_owned();
        let mut i: usize = 0;
        while i < self.params.len()
            invariant
                self.wf(),
                i <= self.params@.len(),
                key@ == name@,
                forall|k: int| 0 <= k < i ==> self.params@[k].spec_name() != name@,
            decreases self.params.len() - i,
        {
            if self.params[i].name == key {
                return Some(i);
            }
            i += 1;
        }
        None
    }

    /// Registers `name` under the next id, or fails if the name is taken.
    pub fn add(&mut self, name: &str) -> (r: Result<u32, AnalysisError>)
        requires
            old(self).wf(),
            old(self)@.len() + 1 < u32::MAX,
        ensures
            final(self).wf(),
            has_name(old(self)@, name@) ==> {
                &&& r matches Err(AnalysisError::DuplicateName(s)) && s@ == name@
                &&& final(self)@ == old(self)@
            },
            !has_name(old(self)@, name@) ==> {
                &&& r == Ok::<u32, AnalysisError>((old(self)@.len() + 1) as u32)
                &&& final(self)@.len() == old(self)@.len() + 1
                &&& final(self)@.drop_last() == old(self)@
                &&& final(self)@.last().spec_name() == name@
                &&& final(self)@.last().spec_low() is None
                &&& final(self)@.last().spec_high() is None
                &&& final(self)@.last().spec_bins() is None
            },
    {
        if self.position(name).is_some() {
            return Err(AnalysisError::DuplicateName(name.to_owned()));
        }
        let id = (self.params.len() + 1) as u32;
        self.params.push(Parameter::new(name, id));
        assert(self.params@.drop_last() == old(self).params@);
        Ok(id)
    }

    /// The parameter called `name`.
    pub fn lookup(&self, name: &str) -> (r: Option<&Parameter>)
        requires
            self.wf(),
        ensures
            r is Some <==> has_name(self@, name@),
            r is Some ==> r->0.spec_name() == name@ && self@.contains(*r->0) && *r->0 == named(self@, name@),
    {
        match self.position(name) {
            Some(i) => {
                proof {
                    let c = choose|c: int| 0 <= c < self@.len() && self@[c].spec_name() == name@;
                    assert(c == i);
                }
                Some(&self.params[i])
            },
            None => None,
        }
    }

    /// The parameter with id `id`.
    pub fn lookup_id(&self, id: u32) -> (r: Option<&Parameter>)
        requires
            self.wf(),
        ensures
            r is Some <==> 1 <= id <= self@.len(),
            r is Some ==> *r->0 == self@[id - 1],
    {
        if 1 <= id && (id as usize) <= self.params.len() {
            Some(&self.params[(id - 1) as usize])
        } else {
            None
        }
    }

    /// Sets the default axis limits of the parameter called `name`.
    pub fn set_limits(&mut self, name: &str, low: i64, high: i64) -> (r: Result<(), AnalysisError>)
        requires
            old(self).wf(),
        ensures
            final(self).wf(),
            final(self)@.len() == old(self)@.len(),
            r is Ok <==> has_name(old(self)@, name@),
            r matches Err(e) ==> e is UnknownParameter,
            forall|i: int|
                0 <= i < old(self)@.len() ==> {
                    let (p, q) = (old(self)@[i], #[trigger] final(self)@[i]);
                    &&& q.spec_id() == p.spec_id()
                    &&& q.spec_name() == p.spec_name()
                    &&& q.spec_bins() == p.spec_bins()
                    &&& if p.spec_name() == name@ {
                        q.spec_low() == Some(low) && q.spec_high() == Some(high)
                    } else {
                        q.spec_low() == p.spec_low() && q.spec_high() == p.spec_high()
                    }
                },
    {
        match self.position(name) {
            Some(i) => {
                let mut p = self.params.remove(i);
                p.set_limits(low, high);
                self.params.insert(i, p);
                Ok(())
            },
            None => Err(AnalysisError::UnknownParameter(name.to_owned())),
        }
    }

    /// Sets the default bin count of the parameter called `name`.
    pub fn set_bins(&mut self, name: &str, bins: u32) -> (r: Result<(), AnalysisError>)
        requires
            old(self).wf(),
        ensures
            final(self).wf(),
            final(self)@.len() == old(self)@.len(),
            r is Ok <==> has_name(old(self)@, name@),
            r matches Err(e) ==> e is UnknownParameter,
            forall|i: int|
                0 <= i < old(self)@.len() ==> {
                    let (p, q) = (old(self)@[i], #[trigger] final(self)@[i]);
                    &&& q.spec_id() == p.spec_id()
                    &&& q.spec_name() == p.spec_name()
                    &&& q.spec_low() == p.spec_low()
                    &&& q.spec_high() == p.spec_high()
                    &&& q.spec_bins() == if p.spec_name() == name@ {
                        Some(bins)
                    } else {
                        p.spec_bins()
                    }
                },
    {
        match self.position(name) {
            Some(i) => {
                let mut p = self.params.remove(i);
                p.set_bins(bins);
                self.params.insert(i, p);
                Ok(())
            },
            None => Err(AnalysisError::UnknownParameter(name.to_owned())),
        }
    }

    /// Sets the description of the parameter called `name`.
    pub fn set_description(&mut self, name: &str, description: &str) -> (r: Result<(), AnalysisError>)
        requires
            old(self).wf(),
        ensures
            final(self).wf(),
            final(self)@.len() == old(self)@.len(),
            r is Ok <==> has_name(old(self)@, name@),
            r matches Err(e) ==> e is UnknownParameter,
            forall|i: int|
                0 <= i < old(self)@.len() ==> {
                    let (p, q) = (old(self)@[i], #[trigger] final(self)@[i]);
                    &&& q.spec_id() == p.spec_id()
                    &&& q.spec_name() == p.spec_name()
                    &&& q.spec_low() == p.spec_low()
                    &&& q.spec_high() == p.spec_high()
                    &&& q.spec_bins() == p.spec_bins()
                },
    {
        match self.position(name) {
            Some(i) => {
                let mut p = self.params.remove(i);
                p.set_description(description);
                self.params.insert(i, p);
                Ok(())
            },
            None => Err(AnalysisError::UnknownParameter(name.to_owned())),
        }
    }
}

/// One (id, value) pair of a sparse event.
#[derive(Clone, Copy, Debug, PartialEq, Eq)]
pub struct EventParameter {
    pub id: u32,
    pub value: i64,
}

impl EventParameter {
    pub fn new(id: u32, value: i64) -> (r: EventParameter)
        ensures
            r == (EventParameter { id, value }),
    {
        EventParameter { id, value }
    }
}

/// A sparse event: the (id, value) pairs in the order they were pushed.
/// An id may occur more than once; the last occurrence wins.
pub struct Event {
    params: Vec<EventParameter>,
}

/// The value that the last pair for `id` in `s` carries, if any.
pub open spec fn last_value(s: Seq<EventParameter>, id: u32) -> Option<i64>
    decreases s.len(),
{
    if s.len() == 0 {
        None
    } else if s.last().id == id {
        Some(s.last().value)
    } else {
        last_value(s.drop_last(), id)
    }
}

impl Event {
    pub closed spec fn view(&self) -> Seq<EventParameter> {
        self.params@
    }

    pub fn new() -> (r: Event)
        ensures
            r@.len() == 0,
    {
        Event { params: Vec::new() }
    }

    pub fn push(&mut self, p: EventParameter)
        ensures
            final(self)@ == old(self)@.push(p),
    {
        self.params.push(p);
    }

    pub fn len(&self) -> (r: usize)
        ensures
            r == self@.len(),
    {
        self.params.len()
    }

    pub fn get(&self, i: usize) -> (r: EventParameter)
        requires
            i < self@.len(),
        ensures
            r == self@[i as int],
    {
        self.params[i]
    }

    /// Empties the event so that it can be filled again.
    pub fn clear(&mut self)
        ensures
            final(self)@.len() == 0,
    {
        self.params.clear();
    }
}

/// Dense view of one event: for each id, the value it had in the event or
/// `None`. Reused from event to event; loading costs the size of the
/// previous event plus that of the new one, not the largest id. An id that
/// no parameter has is held like any other; nothing reads it.
pub struct FlatEvent {
    values: Vec<Option<i64>>,
    touched: Vec<u32>,
}

spec fn slot_value(values: Seq<Option<i64>>, id: u32) -> Option<i64> {
    if (id as int) < values.len() {
        values[id as int]
    } else {
        None
    }
}

impl FlatEvent {
    /// The value of `id` in the loaded event.
    pub closed spec fn value_of(&self, id: u32) -> Option<i64> {
        slot_value(self.values@, id)
    }

    pub closed spec fn wf(&self) -> bool {
        &&& forall|i: int|
            0 <= i < self.values@.len() && (#[trigger] self.values@[i]) is Some
                ==> exists|j: int| 0 <= j < self.touched@.len() && self.touched@[j] as int == i
        &&& forall|k: int| 0 <= k < self.touched@.len() ==> (#[trigger] self.touched@[k] as int) < self.values@.len()
    }

    /// A view in which no parameter is present.
    pub fn new() -> (r: FlatEvent)
        ensures
            r.wf(),
            forall|id: u32| r.value_of(id) is None,
    {
        FlatEvent { values: Vec::new(), touched: Vec::new() }
    }

    /// The value of parameter `id`, or `None` where the event lacked it.
    pub fn get(&self, id: u32) -> (r: Option<i64>)
        ensures
            r == self.value_of(id),
    {
        if (id as usize) < self.values.len() {
            self.values[id as usize]
        } else {
            None
        }
    }

    /// Extends the slots with absent values until `slot` exists.
    fn grow_to(&mut self, slot: usize)
        requires
            old(self).wf(),
        ensures
            final(self).wf(),
            final(self).touched@ == old(self).touched@,
            slot < final(self).values@.len(),
            old(self).values@.len() <= final(self).values@.len(),
            forall|i: int|
                0 <= i < final(self).values@.len() ==> #[trigger] final(self).values@[i] == if i < old(self).values@.len() {
                    old(self).values@[i]
                } else {
                    None
                },
    {
        let ghost start = self.values@;
        while self.values.len() <= slot
            invariant
                self.touched@ == old(self).touched@,
                start == old(self).values@,
                start.len() <= self.values@.len(),
                forall|i: int|
                    0 <= i < self.values@.len() ==> #[trigger] self.values@[i] == if i < start.len() {
                        start[i]
                    } else {
                        None
                    },
            decreases slot + 1 - self.values.len(),
        {
            self.values.push(None);
        }
        assert forall|i: int|
            0 <= i < self.values@.len() && (#[trigger] self.values@[i]) is Some
                implies exists|j: int| 0 <= j < self.touched@.len() && self.touched@[j] as int == i by {
            assert(start[i] is Some);
        }
    }

    /// Replaces the view by that of `e`: each id takes the value of its last
    /// pair in `e`, and ids that `e` lacks are absent.
    pub fn load_event(&mut self, e: &Event)
        requires
            old(self).wf(),
        ensures
            final(self).wf(),
            forall|id: u32| #[trigger] final(self).value_of(id) == last_value(e@, id),
    {
        // Clear only the slots that the previous event set.
        let mut k: usize = 0;
        while k < self.touched.len()
            invariant
                k <= self.touched@.len(),
                forall|j: int| 0 <= j < self.touched@.len() ==> (#[trigger] self.touched@[j] as int) < self.values@.len(),
                forall|i: int|
                    0 <= i < self.values@.len() && (#[trigger] self.values@[i]) is Some
                        ==> exists|j: int| k <= j < self.touched@.len() && self.touched@[j] as int == i,
            decreases self.touched.len() - k,
        {
            let t = self.touched[k] as usize;
            let ghost prev = self.values@;
            self.values.set(t, None);
            assert forall|i: int|
                0 <= i < self.values@.len() && (#[trigger] self.values@[i]) is Some
                    implies exists|j: int| k + 1 <= j < self.touched@.len() && self.touched@[j] as int == i by {
                assert(prev[i] is Some);
                let j = choose|j: int| k <= j < self.touched@.len() && self.touched@[j] as int == i;
                assert(j != k);
            }
            k += 1;
        }
        self.touched.clear();
        assert forall|id: u32| #[trigger] slot_value(self.values@, id) == last_value(e@.take(0), id) by {
            if (id as int) < self.values@.len() {
                if self.values@[id as int] is Some {
                    let j = choose|j: int| k <= j < self.touched@.len() && self.touched@[j] as int == id as int;
                }
            }
        }
        let n = e.len();
        let mut i: usize = 0;
        while i < n
            invariant
                n == e@.len(),
                i <= n,
                self.wf(),
                forall|id: u32| #[trigger] slot_value(self.values@, id) == last_value(e@.take(i as int), id),
            decreases n - i,
        {
            let p = e.get(i);
            let slot = p.id as usize;
            let ghost before = self.values@;
            self.grow_to(slot);
            assert forall|id: u32| #[trigger] slot_value(self.values@, id) == last_value(e@.take(i as int), id) by {
                assert(slot_value(before, id) == last_value(e@.take(i as int), id));
            }
            let ghost prev = self.values@;
            let ghost prev_touched = self.touched@;
            self.values.set(slot, Some(p.value));
            self.touched.push(p.id);
            assert(e@.take(i + 1).drop_last() == e@.take(i as int));
            assert(e@.take(i + 1).last() == p);
            assert forall|id: u32| #[trigger] slot_value(self.values@, id) == last_value(e@.take(i + 1), id) by {
                assert(slot_value(prev, id) == last_value(e@.take(i as int), id));
            }
            assert forall|x: int|
                0 <= x < self.values@.len() && (#[trigger] self.values@[x]) is Some
                    implies exists|j: int| 0 <= j < self.touched@.len() && self.touched@[j] as int == x by {
                if x == slot as int {
                    assert(self.touched@[prev_touched.len() as int] as int == x);
                } else {
                    assert(prev[x] is Some);
                    let j = choose|j: int| 0 <= j < prev_touched.len() && prev_touched[j] as int == x;
                    assert(self.touched@[j] == prev_touched[j]);
                }
            }
            assert forall|k: int| 0 <= k < self.touched@.len() implies (#[trigger] self.touched@[k] as int) < self.values@.len() by {
                if k < prev_touched.len() {
                    assert(self.touched@[k] == prev_touched[k]);
                }
            }
            i += 1;
        }
        assert(e@.take(n as int) == e@);
        assert forall|id: u32| #[trigger] self.value_of(id) == last_value(e@, id) by {
            assert(slot_value(self.values@, id) == last_value(e@.take(n as int), id));
        }
    }
}

} // verus!
