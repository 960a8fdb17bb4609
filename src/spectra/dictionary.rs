//! Any kind of spectrum, the dictionary that holds the spectra of a run,
//! and the per-event dispatch: flatten the event, empty every condition
//! cache, then offer the event to every spectrum.

use vstd::prelude::*;
use super::pgamma::PGamma;
use super::simple::{OneD, TwoD};
use super::summary::Summary;
use super::{Histogram1D, Histogram2D, SpectrumGate};
use crate::conditions::ConditionDictionary;
use crate::errors::AnalysisError;
use crate::parameters::{last_value, Event, FlatEvent};

verus! {

/// A spectrum of any kind.
pub enum Spectrum {
    OneD(OneD),
    TwoD(TwoD),
    Summary(Summary),
    PGamma(PGamma),
}

impl Spectrum {
    pub open spec fn wf(&self) -> bool {
        match self {
            Spectrum::OneD(s) => s.wf(),
            Spectrum::TwoD(s) => s.wf(),
            Spectrum::Summary(s) => s.wf(),
            Spectrum::PGamma(s) => s.wf(),
        }
    }

    pub open spec fn spec_name(&self) -> Seq<char> {
        match self {
            Spectrum::OneD(s) => s.spec_name(),
            Spectrum::TwoD(s) => s.spec_name(),
            Spectrum::Summary(s) => s.spec_name(),
            Spectrum::PGamma(s) => s.spec_name(),
        }
    }

    pub open spec fn spec_gate(&self) -> SpectrumGate {
        match self {
            Spectrum::OneD(s) => s.spec_gate(),
            Spectrum::TwoD(s) => s.spec_gate(),
            Spectrum::Summary(s) => s.spec_gate(),
            Spectrum::PGamma(s) => s.spec_gate(),
        }
    }

    /// The bin counts.
    pub open spec fn counts(&self) -> Seq<u64> {
        match self {
            Spectrum::OneD(s) => s.spec_histogram().counts(),
            Spectrum::TwoD(s) => s.spec_histogram().counts(),
            Spectrum::Summary(s) => s.spec_histogram().counts(),
            Spectrum::PGamma(s) => s.spec_histogram().counts(),
        }
    }

    /// Counts after `e` is added to the spectrum, gate aside.
    pub open spec fn incremented(&self, e: FlatEvent) -> Seq<u64> {
        match self {
            Spectrum::OneD(s) => s.incremented(e),
            Spectrum::TwoD(s) => s.incremented(e),
            Spectrum::Summary(s) => s.incremented(e),
            Spectrum::PGamma(s) => s.incremented(e),
        }
    }

    pub fn get_name(&self) -> (r: String)
        ensures
            r@ == self.spec_name(),
    {
        match self {
            Spectrum::OneD(s) => s.get_name(),
            Spectrum::TwoD(s) => s.get_name(),
            Spectrum::Summary(s) => s.get_name(),
            Spectrum::PGamma(s) => s.get_name(),
        }
    }

    /// The histogram of a 1-D spectrum.
    pub fn get_histogram_1d(&self) -> (r: Option<&Histogram1D>)
        ensures
            r is Some <==> self is OneD,
            r matches Some(h) ==> (self matches Spectrum::OneD(s) && *h == s.spec_histogram()),
    {
        match self {
            Spectrum::OneD(s) => Some(s.get_histogram_1d()),
            _ => None,
        }
    }

    /// The histogram of a spectrum over two axes.
    pub fn get_histogram_2d(&self) -> (r: Option<&Histogram2D>)
        ensures
            r is Some <==> !(self is OneD),
            r matches Some(h) ==> match self {
                Spectrum::OneD(_) => false,
                Spectrum::TwoD(s) => *h == s.spec_histogram(),
                Spectrum::Summary(s) => *h == s.spec_histogram(),
                Spectrum::PGamma(s) => *h == s.spec_histogram(),
            },
    {
        match self {
            Spectrum::OneD(_) => None,
            Spectrum::TwoD(s) => Some(s.get_histogram_2d()),
            Spectrum::Summary(s) => Some(s.get_histogram_2d()),
            Spectrum::PGamma(s) => Some(s.get_histogram_2d()),
        }
    }

    /// Increments the spectrum with `e` if `e` passes its gate.
    pub fn handle_event(&mut self, e: &FlatEvent, conds: &mut ConditionDictionary)
        requires
            old(self).wf(),
            old(conds).wf(),
        ensures
            final(self).wf(),
            final(conds).wf(),
            final(conds)@ == old(conds)@,
            forall|n: Seq<char>| final(conds).binding(n) == old(conds).binding(n),
            final(conds).cache().len() == old(conds).cache().len(),
            final(self).spec_name() == old(self).spec_name(),
            final(self).spec_gate() == old(self).spec_gate(),
            final(self).counts() == old(self).counts() || final(self).counts() == old(self).incremented(*e),
            old(conds).caches_valid(*e) ==> final(conds).caches_valid(*e) && final(self).counts() == if old(
                self,
            ).spec_gate().passes(old(conds)@, *e) {
                old(self).incremented(*e)
            } else {
                old(self).counts()
            },
    {
        match self {
            Spectrum::OneD(s) => s.handle_event(e, conds),
            Spectrum::TwoD(s) => s.handle_event(e, conds),
            Spectrum::Summary(s) => s.handle_event(e, conds),
            Spectrum::PGamma(s) => s.handle_event(e, conds),
        }
    }

    /// Applies the condition called `name` as its gate.
    pub fn gate(&mut self, name: &str, dict: &ConditionDictionary) -> (r: Result<(), AnalysisError>)
        requires
            old(self).wf(),
            dict.wf(),
        ensures
            final(self).wf(),
            r is Ok <==> dict.binding(name@) is Some,
            r is Err ==> (r matches Err(AnalysisError::NoSuchGate(s)) && s@ == name@),
            r is Ok ==> (final(self).spec_gate().spec_handle() matches Some(h) && dict.binding(name@) == Some(
                h.index(),
            )),
            r is Err ==> final(self).spec_gate() == old(self).spec_gate(),
            final(self).spec_name() == old(self).spec_name(),
            final(self).counts() == old(self).counts(),
    {
        match self {
            Spectrum::OneD(s) => s.gate(name, dict),
            Spectrum::TwoD(s) => s.gate(name, dict),
            Spectrum::Summary(s) => s.gate(name, dict),
            Spectrum::PGamma(s) => s.gate(name, dict),
        }
    }

    /// Removes its gate.
    pub fn ungate(&mut self)
        requires
            old(self).wf(),
        ensures
            final(self).wf(),
            final(self).spec_gate().spec_handle() is None,
            final(self).spec_name() == old(self).spec_name(),
            final(self).counts() == old(self).counts(),
    {
        match self {
            Spectrum::OneD(s) => s.ungate(),
            Spectrum::TwoD(s) => s.ungate(),
            Spectrum::Summary(s) => s.ungate(),
            Spectrum::PGamma(s) => s.ungate(),
        }
    }

    /// Zeroes every bin.
    pub fn clear(&mut self)
        requires
            old(self).wf(),
        ensures
            final(self).wf(),
            final(self).spec_name() == old(self).spec_name(),
            final(self).spec_gate() == old(self).spec_gate(),
            final(self).counts().len() == old(self).counts().len(),
            forall|i: int| 0 <= i < final(self).counts().len() ==> final(self).counts()[i] == 0,
    {
        match self {
            Spectrum::OneD(s) => s.clear(),
            Spectrum::TwoD(s) => s.clear(),
            Spectrum::Summary(s) => s.clear(),
            Spectrum::PGamma(s) => s.clear(),
        }
    }
}

/// The spectra of a run, each under its own name.
pub struct SpectrumDictionary {
    spectra: Vec<Spectrum>,
}

impl SpectrumDictionary {
    pub closed spec fn view(&self) -> Seq<Spectrum> {
        self.spectra@
    }

    pub open spec fn wf(&self) -> bool {
        forall|i: int| 0 <= i < self@.len() ==> (#[trigger] self@[i]).wf()
    }

    pub fn new() -> (r: SpectrumDictionary)
        ensures
            r.wf(),
            r@.len() == 0,
    {
        SpectrumDictionary { spectra: Vec::new() }
    }

    pub fn len(&self) -> (r: usize)
        ensures
            r == self@.len(),
    {
        self.spectra.len()
    }

    pub fn get(&self, i: usize) -> (r: &Spectrum)
        requires
            i < self@.len(),
        ensures
            *r == self@[i as int],
    {
        &self.spectra[i]
    }

    /// Position of the spectrum called `name`.
    pub fn position(&self, name: &str) -> (r: Option<usize>)
        ensures
            r is Some <==> exists|i: int| 0 <= i < self@.len() && (#[trigger] self@[i]).spec_name() == name@,
            r matches Some(i) ==> i < self@.len() && self@[i as int].spec_name() == name@,
    {
        let key = name.to_owned();
        let mut i: usize = 0;
        while i < self.spectra.len()
            invariant
                i <= self@.len(),
                key@ == name@,
                forall|k: int| 0 <= k < i ==> (#[trigger] self@[k]).spec_name() != name@,
            decreases self.spectra.len() - i,
        {
            if self.spectra[i].get_name() == key {
                return Some(i);
            }
            i += 1;
        }
        None
    }

    /// Adds a spectrum, unless one of the same name is already there.
    pub fn add(&mut self, s: Spectrum) -> (r: Result<(), AnalysisError>)
        requires
            old(self).wf(),
            s.wf(),
        ensures
            final(self).wf(),
            r is Err <==> exists|i: int| 0 <= i < old(self)@.len() && (#[trigger] old(self)@[i]).spec_name() == s.spec_name(),
            r is Err ==> (r matches Err(AnalysisError::DuplicateName(n)) && n@ == s.spec_name()) && final(self)@ == old(self)@,
            r is Ok ==> final(self)@ == old(self)@.push(s),
    {
        let name = s.get_name();
        if self.position(name.as_str()).is_some() {
            return Err(AnalysisError::DuplicateName(name));
        }
        self.spectra.push(s);
        Ok(())
    }

    /// Applies the condition called `cond` to the spectrum at `i`.
    pub fn gate(&mut self, i: usize, cond: &str, conds: &ConditionDictionary) -> (r: Result<(), AnalysisError>)
        requires
            old(self).wf(),
            conds.wf(),
            i < old(self)@.len(),
        ensures
            final(self).wf(),
            final(self)@.len() == old(self)@.len(),
            r is Ok <==> conds.binding(cond@) is Some,
            r is Err ==> (r matches Err(AnalysisError::NoSuchGate(s)) && s@ == cond@),
            r is Ok ==> (final(self)@[i as int].spec_gate().spec_handle() matches Some(h) && conds.binding(cond@)
                == Some(h.index())),
            final(self)@[i as int].counts() == old(self)@[i as int].counts(),
            forall|j: int| 0 <= j < old(self)@.len() && j != i ==> #[trigger] final(self)@[j] == old(self)@[j],
    {
        self.spectra[i].gate(cond, conds)
    }

    /// Removes any gate of the spectrum at `i`.
    pub fn ungate(&mut self, i: usize)
        requires
            old(self).wf(),
            i < old(self)@.len(),
        ensures
            final(self).wf(),
            final(self)@.len() == old(self)@.len(),
            final(self)@[i as int].spec_gate().spec_handle() is None,
            final(self)@[i as int].counts() == old(self)@[i as int].counts(),
            forall|j: int| 0 <= j < old(self)@.len() && j != i ==> #[trigger] final(self)@[j] == old(self)@[j],
    {
        self.spectra[i].ungate();
    }

    /// Zeroes every bin of the spectrum at `i`.
    pub fn clear(&mut self, i: usize)
        requires
            old(self).wf(),
            i < old(self)@.len(),
        ensures
            final(self).wf(),
            final(self)@.len() == old(self)@.len(),
            forall|k: int| 0 <= k < final(self)@[i as int].counts().len() ==> final(self)@[i as int].counts()[k] == 0,
            forall|j: int| 0 <= j < old(self)@.len() && j != i ==> #[trigger] final(self)@[j] == old(self)@[j],
            final(self)@[i as int].spec_name() == old(self)@[i as int].spec_name(),
            final(self)@[i as int].spec_gate() == old(self)@[i as int].spec_gate(),
            final(self)@[i as int].counts().len() == old(self)@[i as int].counts().len(),
    {
        self.spectra[i].clear();
    }

    /// Processes one event: flattens it into `flat`, empties every
    /// condition cache, then increments each spectrum whose gate the event
    /// passes.
    pub fn process_event(&mut self, event: &Event, flat: &mut FlatEvent, conds: &mut ConditionDictionary)
        requires
            old(self).wf(),
            old(flat).wf(),
            old(conds).wf(),
        ensures
            final(self).wf(),
            final(flat).wf(),
            final(conds).wf(),
            forall|id: u32| #[trigger] final(flat).value_of(id) == last_value(event@, id),
            final(conds)@ == old(conds)@,
            forall|n: Seq<char>| final(conds).binding(n) == old(conds).binding(n),
            final(conds).caches_valid(*final(flat)),
            final(self)@.len() == old(self)@.len(),
            forall|i: int|
                0 <= i < old(self)@.len() ==> {
                    let (s, t) = (old(self)@[i], #[trigger] final(self)@[i]);
                    &&& t.spec_name() == s.spec_name()
                    &&& t.spec_gate() == s.spec_gate()
                    &&& t.counts() == if s.spec_gate().passes(old(conds)@, *final(flat)) {
                        s.incremented(*final(flat))
                    } else {
                        s.counts()
                    }
                },
    {
        flat.load_event(event);
        conds.invalidate_all();
        let n = self.spectra.len();
        let mut i: usize = 0;
        while i < n
            invariant
                flat.wf(),
                conds.wf(),
                forall|id: u32| #[trigger] flat.value_of(id) == last_value(event@, id),
                conds@ == old(conds)@,
                forall|m: Seq<char>| conds.binding(m) == old(conds).binding(m),
                conds.caches_valid(*flat),
                n == self@.len(),
                n == old(self)@.len(),
                i <= n,
                forall|k: int| 0 <= k < n ==> (#[trigger] self@[k]).wf(),
                forall|k: int|
                    0 <= k < n ==> {
                        let (s, t) = (old(self)@[k], #[trigger] self@[k]);
                        &&& t.spec_name() == s.spec_name()
                        &&& t.spec_gate() == s.spec_gate()
                        &&& t.counts() == if k < i {
                            if s.spec_gate().passes(old(conds)@, *flat) {
                                s.incremented(*flat)
                            } else {
                                s.counts()
                            }
                        } else {
                            s.counts()
                        }
                    },
                forall|k: int| i <= k < n ==> #[trigger] self@[k] == old(self)@[k],
            decreases n - i,
        {
            self.spectra[i].handle_event(flat, conds);
            i += 1;
        }
    }
}

} // verus!
