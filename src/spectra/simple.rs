//! The plain spectra: a 1-D spectrum on one parameter and a 2-D spectrum on
//! a pair of parameters.

use vstd::prelude::*;
use super::{
    axis_outcome, fill_1d, fill_2d, resolve_axis, Histogram1D, Histogram2D, SpectrumGate,
    SpectrumParameter,
};
use crate::conditions::ConditionDictionary;
use crate::errors::{AnalysisError, ErrorKind};
use crate::parameters::{has_name, named, FlatEvent, Parameter, ParameterDictionary};

verus! {

/// Axis defaults of the parameter called `n`.
pub open spec fn defaults_of(pd: Seq<Parameter>, n: Seq<char>) -> (Option<i64>, Option<i64>, Option<u32>) {
    let p = named(pd, n);
    (p.spec_low(), p.spec_high(), p.spec_bins())
}

/// The axis that a spectrum on the parameter called `n` gets, or the error.
pub open spec fn param_axis_outcome(
    pd: Seq<Parameter>,
    n: Seq<char>,
    low: Option<i64>,
    high: Option<i64>,
    bins: Option<u32>,
    x: bool,
) -> Result<(i64, i64, u32), (ErrorKind, Seq<char>)> {
    if !has_name(pd, n) {
        Err((ErrorKind::UnknownParameter, n))
    } else {
        axis_outcome(defaults_of(pd, n), low, high, bins, x)
    }
}

/// Resolves the parameter called `name` and fixes its axis.
fn param_axis(
    name: &str,
    pdict: &ParameterDictionary,
    low: Option<i64>,
    high: Option<i64>,
    bins: Option<u32>,
    x: bool,
) -> (r: Result<(SpectrumParameter, super::Axis), AnalysisError>)
    requires
        pdict.wf(),
    ensures
        match param_axis_outcome(pdict@, name@, low, high, bins, x) {
            Ok(t) => r matches Ok((p, a)) && a.wf() && (a.spec_low(), a.spec_high(), a.spec_bins()) == t
                && p.name@ == name@ && p.id == named(pdict@, name@).spec_id(),
            Err(e) => r matches Err(er) && er@ == e,
        },
{
    match pdict.lookup(name) {
        None => Err(AnalysisError::UnknownParameter(name.to_owned())),
        Some(p) => {
            let lims = p.get_limits();
            match resolve_axis((lims.0, lims.1, p.get_bins()), low, high, bins, x) {
                Ok(a) => Ok((SpectrumParameter { name: name.to_owned(), id: p.get_id() }, a)),
                Err(e) => Err(e),
            }
        },
    }
}

/// The values that an event fills into a 1-D spectrum on parameter `id`.
pub open spec fn oned_points(id: u32, e: FlatEvent) -> Seq<i64> {
    match e.value_of(id) {
        Some(v) => seq![v],
        None => Seq::empty(),
    }
}

/// The points that an event fills into a 2-D spectrum on `x` and `y`.
pub open spec fn twod_points(x: u32, y: u32, e: FlatEvent) -> Seq<(i64, i64)> {
    match (e.value_of(x), e.value_of(y)) {
        (Some(vx), Some(vy)) => seq![(vx, vy)],
        _ => Seq::empty(),
    }
}

/// A 1-D spectrum: one count at the value of its parameter, when present.
pub struct OneD {
    applied_gate: SpectrumGate,
    name: String,
    parameter: SpectrumParameter,
    histogram: Histogram1D,
}

impl OneD {
    pub closed spec fn spec_name(&self) -> Seq<char> {
        self.name@
    }

    pub closed spec fn spec_gate(&self) -> SpectrumGate {
        self.applied_gate
    }

    pub closed spec fn spec_histogram(&self) -> Histogram1D {
        self.histogram
    }

    pub closed spec fn spec_parameter(&self) -> SpectrumParameter {
        self.parameter
    }

    pub open spec fn wf(&self) -> bool {
        self.spec_histogram().wf()
    }

    /// Counts after `e` is added to the spectrum, gate aside.
    pub open spec fn incremented(&self, e: FlatEvent) -> Seq<u64> {
        fill_1d(self.spec_histogram().counts(), self.spec_histogram().spec_axis(), oned_points(self.spec_parameter().id, e))
    }

    /// A new, ungated and empty spectrum on the parameter called
    /// `parameter`; the axis values given win over its defaults.
    pub fn new(
        name: &str,
        parameter: &str,
        pdict: &ParameterDictionary,
        low: Option<i64>,
        high: Option<i64>,
        bins: Option<u32>,
    ) -> (r: Result<OneD, AnalysisError>)
        requires
            pdict.wf(),
        ensures
            ({
                let out = param_axis_outcome(pdict@, parameter@, low, high, bins, true);
                &&& r is Ok <==> out is Ok
                &&& r matches Err(e) ==> out == Err::<(i64, i64, u32), _>(e@)
                &&& r matches Ok(s) ==> {
                    let a = s.spec_histogram().spec_axis();
                    &&& s.wf()
                    &&& s.spec_name() == name@
                    &&& s.spec_gate().spec_handle() is None
                    &&& out == Ok::<_, (ErrorKind, Seq<char>)>((a.spec_low(), a.spec_high(), a.spec_bins()))
                    &&& forall|i: int| 0 <= i < s.spec_histogram().counts().len() ==> s.spec_histogram().counts()[i] == 0
                    &&& s.spec_parameter().name@ == parameter@
                    &&& s.spec_parameter().id == named(pdict@, parameter@).spec_id()
                }
            }),
    {
        match param_axis(parameter, pdict, low, high, bins, true) {
            Ok((p, a)) => Ok(
                OneD { applied_gate: SpectrumGate::new(), name: name.to_owned(), parameter: p, histogram: Histogram1D::new(a) },
            ),
            Err(e) => Err(e),
        }
    }

    pub fn get_name(&self) -> (r: String)
        ensures
            r@ == self.spec_name(),
    {
        self.name.clone()
    }

    pub fn get_histogram_1d(&self) -> (r: &Histogram1D)
        ensures
            *r == self.spec_histogram(),
    {
        &self.histogram
    }

    pub fn get_parameter(&self) -> (r: &SpectrumParameter)
        ensures
            *r == self.spec_parameter(),
    {
        &self.parameter
    }

    /// Adds the event: one count at the parameter's value, if present.
    pub fn increment(&mut self, e: &FlatEvent)
        requires
            old(self).wf(),
        ensures
            final(self).wf(),
            final(self).spec_histogram().counts() == old(self).incremented(*e),
            final(self).spec_histogram().spec_axis() == old(self).spec_histogram().spec_axis(),
            final(self).spec_gate() == old(self).spec_gate(),
            final(self).spec_name() == old(self).spec_name(),
            final(self).spec_parameter() == old(self).spec_parameter(),
    {
        if let Some(v) = e.get(self.parameter.id) {
            self.histogram.fill(v);
        }
    }

    /// Increments the spectrum with `e` if `e` passes its gate.
    pub fn handle_event(&mut self, e: &FlatEvent, conds: &mut ConditionDictionary)
        requires
            old(self).wf(),
            old(conds).wf(),
        ensures
            final(self).wf(),
            final(conds).wf(),
            final(conds)@ == old(conds)@,
            forall|n: Seq<char>| final(conds).binding(n) == old(conds).binding(n),
            final(conds).cache().len() == old(conds).cache().len(),
            final(self).spec_histogram().spec_axis() == old(self).spec_histogram().spec_axis(),
            final(self).spec_gate() == old(self).spec_gate(),
            final(self).spec_name() == old(self).spec_name(),
            final(self).spec_parameter() == old(self).spec_parameter(),
            final(self).spec_histogram().counts() == old(self).spec_histogram().counts()
                || final(self).spec_histogram().counts() == old(self).incremented(*e),
            old(conds).caches_valid(*e) ==> final(conds).caches_valid(*e)
                && final(self).spec_histogram().counts() == if old(self).spec_gate().passes(old(conds)@, *e) {
                old(self).incremented(*e)
            } else {
                old(self).spec_histogram().counts()
            },
    {
        if self.applied_gate.check(conds, e) {
            self.increment(e);
        }
    }

    /// Applies the condition called `name` as its gate.
    pub fn gate(&mut self, name: &str, dict: &ConditionDictionary) -> (r: Result<(), AnalysisError>)
        requires
            dict.wf(),
        ensures
            r is Ok <==> dict.binding(name@) is Some,
            r is Err ==> (r matches Err(AnalysisError::NoSuchGate(s)) && s@ == name@),
            r is Ok ==> (final(self).spec_gate().spec_handle() matches Some(h) && dict.binding(name@) == Some(
                h.index(),
            )),
            r is Err ==> final(self).spec_gate() == old(self).spec_gate(),
            final(self).spec_histogram() == old(self).spec_histogram(),
            final(self).spec_name() == old(self).spec_name(),
    {
        self.applied_gate.set_gate(name, dict)
    }

    /// Removes its gate.
    pub fn ungate(&mut self)
        ensures
            final(self).spec_gate().spec_handle() is None,
            final(self).spec_histogram() == old(self).spec_histogram(),
            final(self).spec_name() == old(self).spec_name(),
    {
        self.applied_gate.ungate();
    }

    /// Zeroes every bin.
    pub fn clear(&mut self)
        requires
            old(self).wf(),
        ensures
            final(self).wf(),
            final(self).spec_histogram().spec_axis() == old(self).spec_histogram().spec_axis(),
            forall|i: int|
                0 <= i < final(self).spec_histogram().counts().len() ==> final(self).spec_histogram().counts()[i]
                    == 0,
            final(self).spec_gate() == old(self).spec_gate(),
            final(self).spec_name() == old(self).spec_name(),
            final(self).spec_parameter() == old(self).spec_parameter(),
    {
        self.histogram.clear();
    }
}

/// The axes that a 2-D spectrum gets, or the error: x first, then y, then
/// the number of cells.
pub open spec fn twod_outcome(
    pd: Seq<Parameter>,
    xname: Seq<char>,
    yname: Seq<char>,
    xlow: Option<i64>,
    xhigh: Option<i64>,
    xbins: Option<u32>,
    ylow: Option<i64>,
    yhigh: Option<i64>,
    ybins: Option<u32>,
) -> Result<((i64, i64, u32), (i64, i64, u32)), (ErrorKind, Seq<char>)> {
    match param_axis_outcome(pd, xname, xlow, xhigh, xbins, true) {
        Err(e) => Err(e),
        Ok(xa) => match param_axis_outcome(pd, yname, ylow, yhigh, ybins, false) {
            Err(e) => Err(e),
            Ok(ya) => if (xa.2 + 2) * (ya.2 + 2) > usize::MAX {
                Err((ErrorKind::InvalidAxis, "xy"@))
            } else {
                Ok((xa, ya))
            },
        },
    }
}

/// A 2-D spectrum: one count at the pair of values of its parameters, when
/// both are present.
pub struct TwoD {
    applied_gate: SpectrumGate,
    name: String,
    x: SpectrumParameter,
    y: SpectrumParameter,
    histogram: Histogram2D,
}

impl TwoD {
    pub closed spec fn spec_name(&self) -> Seq<char> {
        self.name@
    }

    pub closed spec fn spec_gate(&self) -> SpectrumGate {
        self.applied_gate
    }

    pub closed spec fn spec_histogram(&self) -> Histogram2D {
        self.histogram
    }

    pub closed spec fn spec_x_param(&self) -> SpectrumParameter {
        self.x
    }

    pub closed spec fn spec_y_param(&self) -> SpectrumParameter {
        self.y
    }

    pub open spec fn wf(&self) -> bool {
        self.spec_histogram().wf()
    }

    /// Counts after `e` is added to the spectrum, gate aside.
    pub open spec fn incremented(&self, e: FlatEvent) -> Seq<u64> {
        fill_2d(
            self.spec_histogram().counts(),
            self.spec_histogram().spec_x(),
            self.spec_histogram().spec_y(),
            twod_points(self.spec_x_param().id, self.spec_y_param().id, e),
        )
    }

    /// A new, ungated and empty spectrum on the parameters called `xname`
    /// and `yname`; the axis values given win over their defaults.
    pub fn new(
        name: &str,
        xname: &str,
        yname: &str,
        pdict: &ParameterDictionary,
        xlow: Option<i64>,
        xhigh: Option<i64>,
        xbins: Option<u32>,
        ylow: Option<i64>,
        yhigh: Option<i64>,
        ybins: Option<u32>,
    ) -> (r: Result<TwoD, AnalysisError>)
        requires
            pdict.wf(),
        ensures
            ({
                let out = twod_outcome(pdict@, xname@, yname@, xlow, xhigh, xbins, ylow, yhigh, ybins);
                &&& r is Ok <==> out is Ok
                &&& r matches Err(e) ==> out == Err::<((i64, i64, u32), (i64, i64, u32)), _>(e@)
                &&& r matches Ok(s) ==> {
                    let h = s.spec_histogram();
                    &&& s.wf()
                    &&& s.spec_name() == name@
                    &&& s.spec_gate().spec_handle() is None
                    &&& out matches Ok((xa, ya)) && (h.spec_x().spec_low(), h.spec_x().spec_high(), h.spec_x().spec_bins())
                        == xa && (h.spec_y().spec_low(), h.spec_y().spec_high(), h.spec_y().spec_bins()) == ya
                    &&& forall|i: int| 0 <= i < h.counts().len() ==> h.counts()[i] == 0
                    &&& s.spec_x_param().id == named(pdict@, xname@).spec_id()
                    &&& s.spec_y_param().id == named(pdict@, yname@).spec_id()
                }
            }),
    {
        let (xp, xa) = match param_axis(xname, pdict, xlow, xhigh, xbins, true) {
            Ok(t) => t,
            Err(e) => return Err(e),
        };
        let (yp, ya) = match param_axis(yname, pdict, ylow, yhigh, ybins, false) {
            Ok(t) => t,
            Err(e) => return Err(e),
        };
        match Histogram2D::new(xa, ya) {
            Some(histogram) => Ok(
                TwoD { applied_gate: SpectrumGate::new(), name: name.to_owned(), x: xp, y: yp, histogram },
            ),
            None => Err(AnalysisError::InvalidAxis("xy".to_owned())),
        }
    }

    pub fn get_name(&self) -> (r: String)
        ensures
            r@ == self.spec_name(),
    {
        self.name.clone()
    }

    pub fn get_histogram_2d(&self) -> (r: &Histogram2D)
        ensures
            *r == self.spec_histogram(),
    {
        &self.histogram
    }

    /// Adds the event: one count at (x value, y value) if both are present.
    pub fn increment(&mut self, e: &FlatEvent)
        requires
            old(self).wf(),
        ensures
            final(self).wf(),
            final(self).spec_histogram().counts() == old(self).incremented(*e),
            final(self).spec_histogram().spec_x() == old(self).spec_histogram().spec_x(),
            final(self).spec_histogram().spec_y() == old(self).spec_histogram().spec_y(),
            final(self).spec_gate() == old(self).spec_gate(),
            final(self).spec_name() == old(self).spec_name(),
            final(self).spec_x_param() == old(self).spec_x_param(),
            final(self).spec_y_param() == old(self).spec_y_param(),
    {
        if let Some(vx) = e.get(self.x.id) {
            if let Some(vy) = e.get(self.y.id) {
                self.histogram.fill(vx, vy);
            }
        }
    }

    /// Increments the spectrum with `e` if `e` passes its gate.
    pub fn handle_event(&mut self, e: &FlatEvent, conds: &mut ConditionDictionary)
        requires
            old(self).wf(),
            old(conds).wf(),
        ensures
            final(self).wf(),
            final(conds).wf(),
            final(conds)@ == old(conds)@,
            forall|n: Seq<char>| final(conds).binding(n) == old(conds).binding(n),
            final(conds).cache().len() == old(conds).cache().len(),
            final(self).spec_histogram().spec_x() == old(self).spec_histogram().spec_x(),
            final(self).spec_histogram().spec_y() == old(self).spec_histogram().spec_y(),
            final(self).spec_gate() == old(self).spec_gate(),
            final(self).spec_name() == old(self).spec_name(),
            final(self).spec_x_param() == old(self).spec_x_param(),
            final(self).spec_y_param() == old(self).spec_y_param(),
            final(self).spec_histogram().counts() == old(self).spec_histogram().counts()
                || final(self).spec_histogram().counts() == old(self).incremented(*e),
            old(conds).caches_valid(*e) ==> final(conds).caches_valid(*e)
                && final(self).spec_histogram().counts() == if old(self).spec_gate().passes(old(conds)@, *e) {
                old(self).incremented(*e)
            } else {
                old(self).spec_histogram().counts()
            },
    {
        if self.applied_gate.check(conds, e) {
            self.increment(e);
        }
    }

    /// Applies the condition called `name` as its gate.
    pub fn gate(&mut self, name: &str, dict: &ConditionDictionary) -> (r: Result<(), AnalysisError>)
        requires
            dict.wf(),
        ensures
            r is Ok <==> dict.binding(name@) is Some,
            r is Err ==> (r matches Err(AnalysisError::NoSuchGate(s)) && s@ == name@),
            r is Ok ==> (final(self).spec_gate().spec_handle() matches Some(h) && dict.binding(name@) == Some(
                h.index(),
            )),
            r is Err ==> final(self).spec_gate() == old(self).spec_gate(),
            final(self).spec_histogram() == old(self).spec_histogram(),
            final(self).spec_name() == old(self).spec_name(),
    {
        self.applied_gate.set_gate(name, dict)
    }

    /// Removes its gate.
    pub fn ungate(&mut self)
        ensures
            final(self).spec_gate().spec_handle() is None,
            final(self).spec_histogram() == old(self).spec_histogram(),
            final(self).spec_name() == old(self).spec_name(),
    {
        self.applied_gate.ungate();
    }

    /// Zeroes every bin.
    pub fn clear(&mut self)
        requires
            old(self).wf(),
        ensures
            final(self).wf(),
            final(self).spec_histogram().spec_x() == old(self).spec_histogram().spec_x(),
            final(self).spec_histogram().spec_y() == old(self).spec_histogram().spec_y(),
            forall|i: int|
                0 <= i < final(self).spec_histogram().counts().len() ==> final(self).spec_histogram().counts()[i]
                    == 0,
            final(self).spec_gate() == old(self).spec_gate(),
            final(self).spec_name() == old(self).spec_name(),
            final(self).spec_x_param() == old(self).spec_x_param(),
            final(self).spec_y_param() == old(self).spec_y_param(),
    {
        self.histogram.clear();
    }
}

} // verus!
