//! Summary spectra, for watching the state of large detector arrays. A
//! summary spectrum is an array of 1-D spectra set side by side: the x
//! coordinate picks a parameter of the list (its position), the y
//! coordinate is that parameter's value.
//!
//! Creating one takes a list of registered parameters and, optionally, the
//! y axis. What is not given is defaulted from the parameters: the least
//! low limit, the greatest high limit and the greatest bin count. If some
//! of these is neither given nor defaulted, the spectrum is not created.

use vstd::prelude::*;
use vstd::arithmetic::div_mod::lemma_div_by_multiple;
use vstd::arithmetic::mul::lemma_mul_inequality;
use super::{
    axis_defaults, axis_outcome, bump, cell, fill_2d, lemma_fill_2d_distinct, lemma_fill_2d_frame, lemma_fill_2d_push,
    make_axis_def, resolve_axis,
    unknown_name, Axis, Histogram2D, SpectrumGate, SpectrumParameter,
};
use super::pgamma::ids_of;
use crate::conditions::ConditionDictionary;
use crate::errors::{AnalysisError, ErrorKind};
use crate::parameters::{named, FlatEvent, Parameter, ParameterDictionary};

verus! {

/// The points that an event fills: (position, value) for each parameter of
/// the list that is present, in order.
pub open spec fn summary_points(ids: Seq<u32>, e: FlatEvent) -> Seq<(i64, i64)>
    decreases ids.len(),
{
    if ids.len() == 0 {
        Seq::empty()
    } else {
        summary_points(ids.drop_last(), e) + match e.value_of(ids.last()) {
            Some(v) => seq![((ids.len() - 1) as i64, v)],
            None => Seq::empty(),
        }
    }
}

/// The x and y axes that construction settles on, or the error it reports:
/// the parameters are checked first, then the y axis, then the x axis (one
/// bin per parameter over `[0, n)`), then the number of cells.
pub open spec fn summary_outcome(
    pd: Seq<Parameter>,
    params: Seq<String>,
    ylow: Option<i64>,
    yhigh: Option<i64>,
    bins: Option<u32>,
) -> Result<((i64, i64, u32), (i64, i64, u32)), (ErrorKind, Seq<char>)> {
    match unknown_name(pd, params) {
        Some(n) => Err((ErrorKind::UnknownParameter, n)),
        None => match axis_outcome(axis_defaults(pd, params), ylow, yhigh, bins, false) {
            Err(e) => Err(e),
            Ok(ya) => {
                let n = params.len();
                if n == 0 || n > u32::MAX || n + 2 > usize::MAX {
                    Err((ErrorKind::InvalidAxis, "x"@))
                } else if (n + 2) * (ya.2 + 2) > usize::MAX {
                    Err((ErrorKind::InvalidAxis, "xy"@))
                } else {
                    Ok(((0, n as i64, n as u32), ya))
                }
            },
        },
    }
}

/// A summary spectrum.
pub struct Summary {
    applied_gate: SpectrumGate,
    name: String,
    histogram: Histogram2D,
    params: Vec<SpectrumParameter>,
}

impl Summary {
    pub closed spec fn spec_name(&self) -> Seq<char> {
        self.name@
    }

    pub closed spec fn spec_gate(&self) -> SpectrumGate {
        self.applied_gate
    }

    pub closed spec fn spec_histogram(&self) -> Histogram2D {
        self.histogram
    }

    pub closed spec fn spec_params(&self) -> Seq<SpectrumParameter> {
        self.params@
    }

    pub open spec fn wf(&self) -> bool {
        self.spec_histogram().wf()
    }

    /// Counts after `e` is added to the spectrum, gate aside.
    pub open spec fn incremented(&self, e: FlatEvent) -> Seq<u64> {
        fill_2d(
            self.spec_histogram().counts(),
            self.spec_histogram().spec_x(),
            self.spec_histogram().spec_y(),
            summary_points(ids_of(self.spec_params()), e),
        )
    }

    /// A new, ungated and empty summary spectrum over `params`. The y axis
    /// values given win over those that the parameters default.
    pub fn new(
        name: &str,
        params: Vec<String>,
        pdict: &ParameterDictionary,
        ylow: Option<i64>,
        yhigh: Option<i64>,
        bins: Option<u32>,
    ) -> (r: Result<Summary, AnalysisError>)
        requires
            pdict.wf(),
        ensures
            ({
                let out = summary_outcome(pdict@, params@, ylow, yhigh, bins);
                &&& r is Ok <==> out is Ok
                &&& r matches Err(e) ==> out == Err::<((i64, i64, u32), (i64, i64, u32)), _>(e@)
                &&& r matches Ok(s) ==> {
                    let h = s.spec_histogram();
                    &&& s.wf()
                    &&& s.spec_name() == name@
                    &&& s.spec_gate().spec_handle() is None
                    &&& out matches Ok((xa, ya)) && (h.spec_x().spec_low(), h.spec_x().spec_high(), h.spec_x().spec_bins())
                        == xa && (h.spec_y().spec_low(), h.spec_y().spec_high(), h.spec_y().spec_bins()) == ya
                    &&& forall|i: int| 0 <= i < h.counts().len() ==> h.counts()[i] == 0
                    &&& s.spec_params().len() == params@.len()
                    &&& forall|i: int|
                        0 <= i < params@.len() ==> (#[trigger] s.spec_params()[i]).name@ == params@[i]@
                            && s.spec_params()[i].id == named(pdict@, params@[i]@).spec_id()
                }
            }),
    {
        let (low, high, nbins, sp) = match make_axis_def(&params, pdict) {
            Ok(d) => d,
            Err(e) => return Err(e),
        };
        let y = match resolve_axis((low, high, nbins), ylow, yhigh, bins, false) {
            Ok(a) => a,
            Err(e) => return Err(e),
        };
        let n = params.len();
        if n == 0 || n > u32::MAX as usize || n > usize::MAX - 2 {
            return Err(AnalysisError::InvalidAxis("x".to_owned()));
        }
        let x = match Axis::new(n as u32, 0, n as i64) {
            Some(a) => a,
            None => return Err(AnalysisError::InvalidAxis("x".to_owned())),
        };
        let histogram = match Histogram2D::new(x, y) {
            Some(h) => h,
            None => return Err(AnalysisError::InvalidAxis("xy".to_owned())),
        };
        Ok(Summary { applied_gate: SpectrumGate::new(), name: name.to_owned(), histogram, params: sp })
    }

    pub fn get_name(&self) -> (r: String)
        ensures
            r@ == self.spec_name(),
    {
        self.name.clone()
    }

    pub fn get_histogram_2d(&self) -> (r: &Histogram2D)
        ensures
            *r == self.spec_histogram(),
    {
        &self.histogram
    }

    pub fn get_params(&self) -> (r: &Vec<SpectrumParameter>)
        ensures
            r@ == self.spec_params(),
    {
        &self.params
    }

    pub fn get_gate(&self) -> (r: &SpectrumGate)
        ensures
            *r == self.spec_gate(),
    {
        &self.applied_gate
    }

    /// Adds the event: one count at (position, value) for each parameter of
    /// the list that is present.
    pub fn increment(&mut self, e: &FlatEvent)
        requires
            old(self).wf(),
        ensures
            final(self).wf(),
            final(self).spec_histogram().counts() == old(self).incremented(*e),
            final(self).spec_histogram().spec_x() == old(self).spec_histogram().spec_x(),
            final(self).spec_histogram().spec_y() == old(self).spec_histogram().spec_y(),
            final(self).spec_gate() == old(self).spec_gate(),
            final(self).spec_name() == old(self).spec_name(),
            final(self).spec_params() == old(self).spec_params(),
    {
        let ghost c0 = self.histogram.counts();
        let ghost xa = self.histogram.spec_x();
        let ghost ya = self.histogram.spec_y();
        let ghost ids = ids_of(self.params@);
        let n = self.params.len();
        let mut i: usize = 0;
        while i < n
            invariant
                self.histogram.wf(),
                self.histogram.spec_x() == xa,
                self.histogram.spec_y() == ya,
                self.applied_gate == old(self).applied_gate,
                self.name == old(self).name,
                self.params == old(self).params,
                ids == ids_of(self.params@),
                n == ids.len(),
                i <= n,
                self.histogram.counts() == fill_2d(c0, xa, ya, summary_points(ids.take(i as int), *e)),
            decreases n - i,
        {
            let ghost before = summary_points(ids.take(i as int), *e);
            assert(ids.take(i + 1).drop_last() == ids.take(i as int));
            assert(ids.take(i + 1).last() == self.params@[i as int].id);
            assert(ids.take(i + 1).len() == i + 1);
            if let Some(y) = e.get(self.params[i].id) {
                proof {
                    lemma_fill_2d_push(c0, xa, ya, before, (i as i64, y));
                    assert(summary_points(ids.take(i + 1), *e) == before.push((i as i64, y)));
                }
                self.histogram.fill(i as i64, y);
            } else {
                assert(summary_points(ids.take(i + 1), *e) =~= before);
            }
            i += 1;
        }
        assert(ids.take(n as int) == ids);
    }

    /// Increments the spectrum with `e` if `e` passes its gate.
    pub fn handle_event(&mut self, e: &FlatEvent, conds: &mut ConditionDictionary)
        requires
            old(self).wf(),
            old(conds).wf(),
        ensures
            final(self).wf(),
            final(conds).wf(),
            final(conds)@ == old(conds)@,
            forall|n: Seq<char>| final(conds).binding(n) == old(conds).binding(n),
            final(conds).cache().len() == old(conds).cache().len(),
            final(self).spec_name() == old(self).spec_name(),
            final(self).spec_histogram().spec_x() == old(self).spec_histogram().spec_x(),
            final(self).spec_histogram().spec_y() == old(self).spec_histogram().spec_y(),
            final(self).spec_gate() == old(self).spec_gate(),
            final(self).spec_params() == old(self).spec_params(),
            final(self).spec_histogram().counts() == old(self).spec_histogram().counts()
                || final(self).spec_histogram().counts() == old(self).incremented(*e),
            old(conds).caches_valid(*e) ==> final(conds).caches_valid(*e)
                && final(self).spec_histogram().counts() == if old(self).spec_gate().passes(old(conds)@, *e) {
                old(self).incremented(*e)
            } else {
                old(self).spec_histogram().counts()
            },
    {
        if self.applied_gate.check(conds, e) {
            self.increment(e);
        }
    }

    /// Applies the condition called `name` as its gate.
    pub fn gate(&mut self, name: &str, dict: &ConditionDictionary) -> (r: Result<(), AnalysisError>)
        requires
            dict.wf(),
        ensures
            r is Ok <==> dict.binding(name@) is Some,
            r is Err ==> (r matches Err(AnalysisError::NoSuchGate(s)) && s@ == name@),
            r is Ok ==> (final(self).spec_gate().spec_handle() matches Some(h) && dict.binding(name@) == Some(
                h.index(),
            )),
            r is Err ==> final(self).spec_gate() == old(self).spec_gate(),
            final(self).spec_histogram() == old(self).spec_histogram(),
            final(self).spec_name() == old(self).spec_name(),
            final(self).spec_params() == old(self).spec_params(),
    {
        self.applied_gate.set_gate(name, dict)
    }

    /// Removes its gate.
    pub fn ungate(&mut self)
        ensures
            final(self).spec_gate().spec_handle() is None,
            final(self).spec_histogram() == old(self).spec_histogram(),
            final(self).spec_name() == old(self).spec_name(),
            final(self).spec_params() == old(self).spec_params(),
    {
        self.applied_gate.ungate();
    }

    /// Zeroes every bin.
    pub fn clear(&mut self)
        requires
            old(self).wf(),
        ensures
            final(self).wf(),
            final(self).spec_histogram().spec_x() == old(self).spec_histogram().spec_x(),
            final(self).spec_histogram().spec_y() == old(self).spec_histogram().spec_y(),
            forall|i: int|
                0 <= i < final(self).spec_histogram().counts().len() ==> final(self).spec_histogram().counts()[i]
                    == 0,
            final(self).spec_gate() == old(self).spec_gate(),
            final(self).spec_name() == old(self).spec_name(),
            final(self).spec_params() == old(self).spec_params(),
    {
        self.histogram.clear();
    }
}

proof fn lemma_summary_points_shape(ids: Seq<u32>, e: FlatEvent)
    requires
        ids.len() <= i64::MAX,
    ensures
        ({
            let ps = summary_points(ids, e);
            &&& forall|j: int|
                0 <= j < ps.len() ==> 0 <= (#[trigger] ps[j]).0 < ids.len() && e.value_of(ids[ps[j].0 as int])
                    == Some(ps[j].1)
            &&& forall|j1: int, j2: int| 0 <= j1 < j2 < ps.len() ==> (#[trigger] ps[j1]).0 < (#[trigger] ps[j2]).0
            &&& forall|i: int|
                0 <= i < ids.len() && (#[trigger] e.value_of(ids[i])) is Some ==> exists|j: int|
                    0 <= j < ps.len() && ps[j] == (i as i64, e.value_of(ids[i])->0)
        }),
    decreases ids.len(),
{
    if ids.len() > 0 {
        let rest = ids.drop_last();
        lemma_summary_points_shape(rest, e);
        let front = summary_points(rest, e);
        let ps = summary_points(ids, e);
        assert forall|j: int| 0 <= j < front.len() implies ps[j] == front[j] by {}
        assert forall|i: int| 0 <= i < rest.len() implies rest[i] == ids[i] by {}
        assert forall|j: int|
            0 <= j < ps.len() implies 0 <= (#[trigger] ps[j]).0 < ids.len() && e.value_of(ids[ps[j].0 as int])
            == Some(ps[j].1) by {
            if j < front.len() {
                assert(ps[j] == front[j]);
            } else {
                assert(ps[j] == ((ids.len() - 1) as i64, e.value_of(ids.last())->0));
                assert(ids[ids.len() - 1] == ids.last());
            }
        }
        assert forall|j1: int, j2: int| 0 <= j1 < j2 < ps.len() implies (#[trigger] ps[j1]).0 < (#[trigger] ps[j2]).0 by {
            if j2 < front.len() {
                assert(ps[j1] == front[j1] && ps[j2] == front[j2]);
            } else {
                assert(ps[j1] == front[j1]);
                assert(ps[j2].0 == (ids.len() - 1) as i64);
            }
        }
        assert forall|i: int|
            0 <= i < ids.len() && (#[trigger] e.value_of(ids[i])) is Some implies exists|j: int|
            0 <= j < ps.len() && ps[j] == (i as i64, e.value_of(ids[i])->0) by {
            if i < rest.len() {
                assert(e.value_of(rest[i]) is Some);
                let j = choose|j: int| 0 <= j < front.len() && front[j] == (i as i64, e.value_of(rest[i])->0);
                assert(ps[j] == front[j]);
            } else {
                assert(ids[i] == ids.last());
                assert(ps[front.len() as int] == (i as i64, e.value_of(ids[i])->0));
            }
        }
    }
}

/// When the x axis has one bin per parameter (as `new` makes it), adding an
/// event to a summary spectrum adds one, unless the bin is full, to the bin
/// of (i, v) for each parameter i of the list present with value v, and
/// changes no other bin. For an event loaded with `load_event`, v is the
/// last value pushed for that parameter's id.
pub proof fn lemma_summary_increment(s: Summary, e: FlatEvent)
    requires
        s.wf(),
        s.spec_histogram().spec_x().spec_low() == 0,
        s.spec_histogram().spec_x().spec_high() == s.spec_params().len(),
        s.spec_histogram().spec_x().spec_bins() == s.spec_params().len(),
    ensures
        ({
            let h = s.spec_histogram();
            let ids = ids_of(s.spec_params());
            &&& forall|i: int, v: i64|
                #![trigger e.value_of(ids[i]), h.cell_of(i as i64, v)]
                0 <= i < ids.len() && e.value_of(ids[i]) == Some(v) ==> s.incremented(e)[h.cell_of(
                    i as i64,
                    v,
                )] == bump(h.counts()[h.cell_of(i as i64, v)])
            &&& forall|c: int|
                0 <= c < h.counts().len() && #[trigger] s.incremented(e)[c] != h.counts()[c] ==> exists|i: int, v: i64|
                    #![trigger e.value_of(ids[i]), h.cell_of(i as i64, v)]
                    0 <= i < ids.len() && e.value_of(ids[i]) == Some(v) && h.cell_of(i as i64, v) == c
        }),
{
    let h = s.spec_histogram();
    let (x, y) = (h.spec_x(), h.spec_y());
    let ny = y.spec_num_bins();
    let ids = ids_of(s.spec_params());
    let ps = summary_points(ids, e);
    let n = ids.len();
    lemma_summary_points_shape(ids, e);
    assert(s.incremented(e) == fill_2d(h.counts(), x, y, ps));
    assert forall|i: int| 0 <= i < n implies #[trigger] x.index_of(i as i64) == i + 1 by {
        lemma_div_by_multiple(i, n as int);
    }
    assert forall|j1: int, j2: int|
        0 <= j1 < ps.len() && 0 <= j2 < ps.len() && j1 != j2 implies cell(
        ny,
        x.index_of(#[trigger] ps[j1].0),
        y.index_of(ps[j1].1),
    ) != cell(ny, x.index_of(#[trigger] ps[j2].0), y.index_of(ps[j2].1)) by {
        let (a, b) = if j1 < j2 { (j1, j2) } else { (j2, j1) };
        assert(ps[a].0 < ps[b].0);
        let (ia, ib) = (x.index_of(ps[a].0), x.index_of(ps[b].0));
        assert(ia == ps[a].0 + 1 && ib == ps[b].0 + 1);
        super::lemma_index_in_range(y, ps[a].1);
        super::lemma_index_in_range(y, ps[b].1);
        let (ya, yb) = (y.index_of(ps[a].1), y.index_of(ps[b].1));
        lemma_mul_inequality(ia + 1, ib, ny);
        assert((ia + 1) * ny == ia * ny + ny) by (nonlinear_arith);
        assert(cell(ny, ia, ya) < cell(ny, ib, yb));
    }
    lemma_fill_2d_distinct(h.counts(), x, y, ps);
    lemma_fill_2d_frame(h.counts(), x, y, ps);
    assert forall|i: int, v: i64|
        #![trigger e.value_of(ids[i]), h.cell_of(i as i64, v)]
        0 <= i < ids.len() && e.value_of(ids[i]) == Some(v) implies s.incremented(e)[h.cell_of(
        i as i64,
        v,
    )] == bump(h.counts()[h.cell_of(i as i64, v)]) by {
        let j = choose|j: int| 0 <= j < ps.len() && ps[j] == (i as i64, e.value_of(ids[i])->0);
        assert(ps[j].0 == i as i64 && ps[j].1 == v);
    }
    assert forall|c: int|
        0 <= c < h.counts().len() && #[trigger] s.incremented(e)[c] != h.counts()[c] implies exists|i: int, v: i64|
        #![trigger e.value_of(ids[i]), h.cell_of(i as i64, v)]
        0 <= i < ids.len() && e.value_of(ids[i]) == Some(v) && h.cell_of(i as i64, v) == c by {
        let j = choose|j: int| 0 <= j < ps.len() && cell(ny, x.index_of(ps[j].0), y.index_of(ps[j].1)) == c;
        let i = ps[j].0 as int;
        assert(e.value_of(ids[i]) == Some(ps[j].1));
        assert(h.cell_of(i as i64, ps[j].1) == c);
    }
}

} // verus!
