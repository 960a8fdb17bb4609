//! Particle-gamma spectra, for coincidence experiments where both the
//! particle and the gamma detectors are arrays. The spectrum is defined on
//! two independent lists of parameters, one for each axis, and an event
//! increments it once for every (x, y) pair of parameters that are both
//! present. With x parameters 1, 3 and y parameters 5, 7, 8 and all of them
//! present, the pairs (1,5), (1,7), (1,8), (3,5), (3,7), (3,8) each add one.
//!
//! Axis defaults come separately from the x and the y parameters: the
//! least low limit, the greatest high limit and the greatest bin count.
//! Values given explicitly win.

use vstd::prelude::*;
use super::{
    axis_defaults, axis_outcome, fill_2d, lemma_fill_2d_frame, lemma_fill_2d_push, make_axis_def, resolve_axis,
    unknown_name, Histogram2D, SpectrumGate, SpectrumParameter,
};
use crate::conditions::ConditionDictionary;
use crate::errors::{AnalysisError, ErrorKind};
use crate::parameters::{named, FlatEvent, Parameter, ParameterDictionary};

verus! {

/// The points that the row of x value `x` contributes: one for each y
/// parameter present, in order.
pub open spec fn row_points(x: Option<i64>, yids: Seq<u32>, e: FlatEvent) -> Seq<(i64, i64)>
    decreases yids.len(),
{
    if yids.len() == 0 || x is None {
        Seq::empty()
    } else {
        row_points(x, yids.drop_last(), e) + match e.value_of(yids.last()) {
            Some(y) => seq![(x->0, y)],
            None => Seq::empty(),
        }
    }
}

/// The points that an event fills: (x value, y value) for every pair of an
/// x parameter and a y parameter that are both present, x-major.
pub open spec fn pgamma_points(xids: Seq<u32>, yids: Seq<u32>, e: FlatEvent) -> Seq<(i64, i64)>
    decreases xids.len(),
{
    if xids.len() == 0 {
        Seq::empty()
    } else {
        pgamma_points(xids.drop_last(), yids, e) + row_points(e.value_of(xids.last()), yids, e)
    }
}

/// The x and y axes that construction settles on, or the error it reports:
/// the x parameters and axis are checked first, then the y ones, then the
/// number of cells.
pub open spec fn pgamma_outcome(
    pd: Seq<Parameter>,
    xparams: Seq<String>,
    yparams: Seq<String>,
    xmin: Option<i64>,
    xmax: Option<i64>,
    xbins: Option<u32>,
    ymin: Option<i64>,
    ymax: Option<i64>,
    ybins: Option<u32>,
) -> Result<((i64, i64, u32), (i64, i64, u32)), (ErrorKind, Seq<char>)> {
    match unknown_name(pd, xparams) {
        Some(n) => Err((ErrorKind::UnknownParameter, n)),
        None => match axis_outcome(axis_defaults(pd, xparams), xmin, xmax, xbins, true) {
            Err(e) => Err(e),
            Ok(xa) => match unknown_name(pd, yparams) {
                Some(n) => Err((ErrorKind::UnknownParameter, n)),
                None => match axis_outcome(axis_defaults(pd, yparams), ymin, ymax, ybins, false) {
                    Err(e) => Err(e),
                    Ok(ya) => if (xa.2 + 2) * (ya.2 + 2) > usize::MAX {
                        Err((ErrorKind::InvalidAxis, "xy"@))
                    } else {
                        Ok((xa, ya))
                    },
                },
            },
        },
    }
}

/// Ids of a list of spectrum parameters.
pub open spec fn ids_of(ps: Seq<SpectrumParameter>) -> Seq<u32> {
    ps.map_values(|p: SpectrumParameter| p.id)
}

/// A particle-gamma spectrum.
pub struct PGamma {
    applied_gate: SpectrumGate,
    name: String,
    histogram: Histogram2D,
    x_params: Vec<SpectrumParameter>,
    y_params: Vec<SpectrumParameter>,
}

impl PGamma {
    pub closed spec fn spec_name(&self) -> Seq<char> {
        self.name@
    }

    pub closed spec fn spec_gate(&self) -> SpectrumGate {
        self.applied_gate
    }

    pub closed spec fn spec_histogram(&self) -> Histogram2D {
        self.histogram
    }

    pub closed spec fn spec_x_params(&self) -> Seq<SpectrumParameter> {
        self.x_params@
    }

    pub closed spec fn spec_y_params(&self) -> Seq<SpectrumParameter> {
        self.y_params@
    }

    pub open spec fn wf(&self) -> bool {
        self.spec_histogram().wf()
    }

    /// Counts after `e` is added to the spectrum, gate aside.
    pub open spec fn incremented(&self, e: FlatEvent) -> Seq<u64> {
        fill_2d(
            self.spec_histogram().counts(),
            self.spec_histogram().spec_x(),
            self.spec_histogram().spec_y(),
            pgamma_points(ids_of(self.spec_x_params()), ids_of(self.spec_y_params()), e),
        )
    }

    /// A new, ungated and empty spectrum over the x parameters `xparams` and
    /// the y parameters `yparams`. The axis values given win over those that
    /// the parameters default.
    pub fn new(
        name: &str,
        xparams: &Vec<String>,
        yparams: &Vec<String>,
        pdict: &ParameterDictionary,
        xmin: Option<i64>,
        xmax: Option<i64>,
        xbins: Option<u32>,
        ymin: Option<i64>,
        ymax: Option<i64>,
        ybins: Option<u32>,
    ) -> (r: Result<PGamma, AnalysisError>)
        requires
            pdict.wf(),
        ensures
            ({
                let out = pgamma_outcome(pdict@, xparams@, yparams@, xmin, xmax, xbins, ymin, ymax, ybins);
                &&& r is Ok <==> out is Ok
                &&& r matches Err(e) ==> out == Err::<((i64, i64, u32), (i64, i64, u32)), _>(e@)
                &&& r matches Ok(s) ==> {
                    let h = s.spec_histogram();
                    &&& s.wf()
                    &&& s.spec_name() == name@
                    &&& s.spec_gate().spec_handle() is None
                    &&& out matches Ok((xa, ya)) && (h.spec_x().spec_low(), h.spec_x().spec_high(), h.spec_x().spec_bins())
                        == xa && (h.spec_y().spec_low(), h.spec_y().spec_high(), h.spec_y().spec_bins()) == ya
                    &&& forall|i: int| 0 <= i < h.counts().len() ==> h.counts()[i] == 0
                    &&& s.spec_x_params().len() == xparams@.len()
                    &&& forall|i: int|
                        0 <= i < xparams@.len() ==> (#[trigger] s.spec_x_params()[i]).name@ == xparams@[i]@
                            && s.spec_x_params()[i].id == named(pdict@, xparams@[i]@).spec_id()
                    &&& s.spec_y_params().len() == yparams@.len()
                    &&& forall|i: int|
                        0 <= i < yparams@.len() ==> (#[trigger] s.spec_y_params()[i]).name@ == yparams@[i]@
                            && s.spec_y_params()[i].id == named(pdict@, yparams@[i]@).spec_id()
                }
            }),
    {
        let (x_min, x_max, x_bins, xp) = match make_axis_def(xparams, pdict) {
            Ok(d) => d,
            Err(e) => return Err(e),
        };
        let x = match resolve_axis((x_min, x_max, x_bins), xmin, xmax, xbins, true) {
            Ok(a) => a,
            Err(e) => return Err(e),
        };
        let (y_min, y_max, y_bins, yp) = match make_axis_def(yparams, pdict) {
            Ok(d) => d,
            Err(e) => return Err(e),
        };
        let y = match resolve_axis((y_min, y_max, y_bins), ymin, ymax, ybins, false) {
            Ok(a) => a,
            Err(e) => return Err(e),
        };
        let histogram = match Histogram2D::new(x, y) {
            Some(h) => h,
            None => return Err(AnalysisError::InvalidAxis("xy".to_owned())),
        };
        Ok(PGamma { applied_gate: SpectrumGate::new(), name: name.to_owned(), histogram, x_params: xp, y_params: yp })
    }

    pub fn get_name(&self) -> (r: String)
        ensures
            r@ == self.spec_name(),
    {
        self.name.clone()
    }

    pub fn get_histogram_2d(&self) -> (r: &Histogram2D)
        ensures
            *r == self.spec_histogram(),
    {
        &self.histogram
    }

    pub fn get_x_params(&self) -> (r: &Vec<SpectrumParameter>)
        ensures
            r@ == self.spec_x_params(),
    {
        &self.x_params
    }

    pub fn get_y_params(&self) -> (r: &Vec<SpectrumParameter>)
        ensures
            r@ == self.spec_y_params(),
    {
        &self.y_params
    }

    pub fn get_gate(&self) -> (r: &SpectrumGate)
        ensures
            *r == self.spec_gate(),
    {
        &self.applied_gate
    }

    /// Adds the event: one count for each (x, y) pair of parameters both
    /// present.
    pub fn increment(&mut self, e: &FlatEvent)
        requires
            old(self).wf(),
        ensures
            final(self).wf(),
            final(self).spec_histogram().counts() == old(self).incremented(*e),
            final(self).spec_histogram().spec_x() == old(self).spec_histogram().spec_x(),
            final(self).spec_histogram().spec_y() == old(self).spec_histogram().spec_y(),
            final(self).spec_gate() == old(self).spec_gate(),
            final(self).spec_name() == old(self).spec_name(),
            final(self).spec_x_params() == old(self).spec_x_params(),
            final(self).spec_y_params() == old(self).spec_y_params(),
    {
        let ghost c0 = self.histogram.counts();
        let ghost xa = self.histogram.spec_x();
        let ghost ya = self.histogram.spec_y();
        let ghost xids = ids_of(self.x_params@);
        let ghost yids = ids_of(self.y_params@);
        let n = self.x_params.len();
        let m = self.y_params.len();
        let mut i: usize = 0;
        while i < n
            invariant
                self.histogram.wf(),
                self.histogram.spec_x() == xa,
                self.histogram.spec_y() == ya,
                self.applied_gate == old(self).applied_gate,
                self.name == old(self).name,
                self.x_params == old(self).x_params,
                self.y_params == old(self).y_params,
                xids == ids_of(self.x_params@),
                yids == ids_of(self.y_params@),
                n == xids.len(),
                m == yids.len(),
                i <= n,
                self.histogram.counts() == fill_2d(c0, xa, ya, pgamma_points(xids.take(i as int), yids, *e)),
            decreases n - i,
        {
            let xv = e.get(self.x_params[i].id);
            let ghost before = pgamma_points(xids.take(i as int), yids, *e);
            let mut j: usize = 0;
            while j < m
                invariant
                    self.histogram.wf(),
                    self.histogram.spec_x() == xa,
                    self.histogram.spec_y() == ya,
                    self.applied_gate == old(self).applied_gate,
                    self.name == old(self).name,
                    self.x_params == old(self).x_params,
                    self.y_params == old(self).y_params,
                    yids == ids_of(self.y_params@),
                    m == yids.len(),
                    j <= m,
                    self.histogram.counts() == fill_2d(c0, xa, ya, before + row_points(xv, yids.take(j as int), *e)),
                decreases m - j,
            {
                let ghost row = row_points(xv, yids.take(j as int), *e);
                assert(yids.take(j + 1).drop_last() == yids.take(j as int));
                assert(yids.take(j + 1).last() == self.y_params@[j as int].id);
                if let Some(x) = xv {
                    if let Some(y) = e.get(self.y_params[j].id) {
                        proof {
                            lemma_fill_2d_push(c0, xa, ya, before + row, (x, y));
                            assert(row_points(xv, yids.take(j + 1), *e) == row + seq![(x, y)]);
                            assert(before + (row + seq![(x, y)]) == (before + row).push((x, y)));
                        }
                        self.histogram.fill(x, y);
                    } else {
                        assert(row_points(xv, yids.take(j + 1), *e) =~= row);
                    }
                } else {
                    assert(row_points(xv, yids.take(j + 1), *e) =~= row);
                }
                j += 1;
            }
            proof {
                assert(yids.take(m as int) == yids);
                assert(xids.take(i + 1).drop_last() == xids.take(i as int));
                assert(xids.take(i + 1).last() == self.x_params@[i as int].id);
                assert(xv == e.value_of(xids.take(i + 1).last()));
            }
            i += 1;
        }
        assert(xids.take(n as int) == xids);
    }

    /// Increments the spectrum with `e` if `e` passes its gate.
    pub fn handle_event(&mut self, e: &FlatEvent, conds: &mut ConditionDictionary)
        requires
            old(self).wf(),
            old(conds).wf(),
        ensures
            final(self).wf(),
            final(conds).wf(),
            final(conds)@ == old(conds)@,
            forall|n: Seq<char>| final(conds).binding(n) == old(conds).binding(n),
            final(conds).cache().len() == old(conds).cache().len(),
            final(self).spec_name() == old(self).spec_name(),
            final(self).spec_histogram().spec_x() == old(self).spec_histogram().spec_x(),
            final(self).spec_histogram().spec_y() == old(self).spec_histogram().spec_y(),
            final(self).spec_gate() == old(self).spec_gate(),
            final(self).spec_x_params() == old(self).spec_x_params(),
            final(self).spec_y_params() == old(self).spec_y_params(),
            final(self).spec_histogram().counts() == old(self).spec_histogram().counts()
                || final(self).spec_histogram().counts() == old(self).incremented(*e),
            old(conds).caches_valid(*e) ==> final(conds).caches_valid(*e)
                && final(self).spec_histogram().counts() == if old(self).spec_gate().passes(old(conds)@, *e) {
                old(self).incremented(*e)
            } else {
                old(self).spec_histogram().counts()
            },
    {
        if self.applied_gate.check(conds, e) {
            self.increment(e);
        }
    }

    /// Applies the condition called `name` as its gate.
    pub fn gate(&mut self, name: &str, dict: &ConditionDictionary) -> (r: Result<(), AnalysisError>)
        requires
            dict.wf(),
        ensures
            r is Ok <==> dict.binding(name@) is Some,
            r is Err ==> (r matches Err(AnalysisError::NoSuchGate(s)) && s@ == name@),
            r is Ok ==> (final(self).spec_gate().spec_handle() matches Some(h) && dict.binding(name@) == Some(
                h.index(),
            )),
            r is Err ==> final(self).spec_gate() == old(self).spec_gate(),
            final(self).spec_histogram() == old(self).spec_histogram(),
            final(self).spec_name() == old(self).spec_name(),
            final(self).spec_x_params() == old(self).spec_x_params(),
            final(self).spec_y_params() == old(self).spec_y_params(),
    {
        self.applied_gate.set_gate(name, dict)
    }

    /// Removes its gate.
    pub fn ungate(&mut self)
        ensures
            final(self).spec_gate().spec_handle() is None,
            final(self).spec_histogram() == old(self).spec_histogram(),
            final(self).spec_name() == old(self).spec_name(),
            final(self).spec_x_params() == old(self).spec_x_params(),
            final(self).spec_y_params() == old(self).spec_y_params(),
    {
        self.applied_gate.ungate();
    }

    /// Zeroes every bin.
    pub fn clear(&mut self)
        requires
            old(self).wf(),
        ensures
            final(self).wf(),
            final(self).spec_histogram().spec_x() == old(self).spec_histogram().spec_x(),
            final(self).spec_histogram().spec_y() == old(self).spec_histogram().spec_y(),
            forall|i: int|
                0 <= i < final(self).spec_histogram().counts().len() ==> final(self).spec_histogram().counts()[i]
                    == 0,
            final(self).spec_gate() == old(self).spec_gate(),
            final(self).spec_name() == old(self).spec_name(),
            final(self).spec_x_params() == old(self).spec_x_params(),
            final(self).spec_y_params() == old(self).spec_y_params(),
    {
        self.histogram.clear();
    }
}

proof fn lemma_row_points_present(x: Option<i64>, yids: Seq<u32>, e: FlatEvent)
    ensures
        forall|j: int|
            0 <= j < row_points(x, yids, e).len() ==> x == Some(#[trigger] row_points(x, yids, e)[j].0) && exists|k: int|
                0 <= k < yids.len() && e.value_of(yids[k]) == Some(row_points(x, yids, e)[j].1),
    decreases yids.len(),
{
    if yids.len() > 0 && x is Some {
        let rest = yids.drop_last();
        lemma_row_points_present(x, rest, e);
        let front = row_points(x, rest, e);
        assert forall|j: int| 0 <= j < row_points(x, yids, e).len() implies x == Some(
            #[trigger] row_points(x, yids, e)[j].0,
        ) && exists|k: int| 0 <= k < yids.len() && e.value_of(yids[k]) == Some(row_points(x, yids, e)[j].1) by {
            if j < front.len() {
                assert(row_points(x, yids, e)[j] == front[j]);
                assert(x == Some(front[j].0));
                let k = choose|k: int| 0 <= k < rest.len() && e.value_of(rest[k]) == Some(front[j].1);
                assert(yids[k] == rest[k]);
            } else {
                assert(yids[yids.len() - 1] == yids.last());
            }
        }
    }
}

proof fn lemma_pgamma_points_present(xids: Seq<u32>, yids: Seq<u32>, e: FlatEvent)
    ensures
        forall|j: int|
            0 <= j < pgamma_points(xids, yids, e).len() ==> exists|i: int, k: int|
                0 <= i < xids.len() && 0 <= k < yids.len() && e.value_of(xids[i]) == Some(
                    (#[trigger] pgamma_points(xids, yids, e)[j]).0,
                ) && e.value_of(yids[k]) == Some(pgamma_points(xids, yids, e)[j].1),
    decreases xids.len(),
{
    if xids.len() > 0 {
        let rest = xids.drop_last();
        lemma_pgamma_points_present(rest, yids, e);
        let xv = e.value_of(xids.last());
        lemma_row_points_present(xv, yids, e);
        let front = pgamma_points(rest, yids, e);
        let row = row_points(xv, yids, e);
        assert forall|j: int| 0 <= j < pgamma_points(xids, yids, e).len() implies exists|i: int, k: int|
            0 <= i < xids.len() && 0 <= k < yids.len() && e.value_of(xids[i]) == Some(
                (#[trigger] pgamma_points(xids, yids, e)[j]).0,
            ) && e.value_of(yids[k]) == Some(pgamma_points(xids, yids, e)[j].1) by {
            if j < front.len() {
                assert(pgamma_points(xids, yids, e)[j] == front[j]);
                let (i, k) = choose|i: int, k: int|
                    0 <= i < rest.len() && 0 <= k < yids.len() && e.value_of(rest[i]) == Some(front[j].0)
                        && e.value_of(yids[k]) == Some(front[j].1);
                assert(xids[i] == rest[i]);
            } else {
                let jj = j - front.len();
                assert(pgamma_points(xids, yids, e)[j] == row[jj]);
                let k = choose|k: int| 0 <= k < yids.len() && e.value_of(yids[k]) == Some(row[jj].1);
                assert(xids[xids.len() - 1] == xids.last());
                assert(e.value_of(xids[xids.len() - 1]) == Some(row[jj].0));
            }
        }
    }
}

/// Adding an event to a particle-gamma spectrum lowers no bin and changes
/// only bins of points (u, w) where u is the value of an x parameter and w
/// that of a y parameter, both present in the event. For an event loaded
/// with `load_event`, u and w are the last values pushed for those ids, and
/// a parameter missing from the event contributes nothing.
pub proof fn lemma_pgamma_increment_frame(p: PGamma, e: FlatEvent)
    requires
        p.wf(),
    ensures
        ({
            let h = p.spec_histogram();
            let xids = ids_of(p.spec_x_params());
            let yids = ids_of(p.spec_y_params());
            &&& p.incremented(e).len() == h.counts().len()
            &&& forall|c: int| 0 <= c < h.counts().len() ==> #[trigger] p.incremented(e)[c] >= h.counts()[c]
            &&& forall|c: int|
                0 <= c < h.counts().len() && #[trigger] p.incremented(e)[c] != h.counts()[c] ==> exists|
                    i: int,
                    k: int,
                    u: i64,
                    w: i64,
                |
                    #![trigger xids[i], yids[k], h.cell_of(u, w)]
                    0 <= i < xids.len() && 0 <= k < yids.len() && e.value_of(xids[i]) == Some(u) && e.value_of(
                        yids[k],
                    ) == Some(w) && h.cell_of(u, w) == c
        }),
{
    let h = p.spec_histogram();
    let xids = ids_of(p.spec_x_params());
    let yids = ids_of(p.spec_y_params());
    let ps = pgamma_points(xids, yids, e);
    lemma_fill_2d_frame(h.counts(), h.spec_x(), h.spec_y(), ps);
    assert(p.incremented(e) == fill_2d(h.counts(), h.spec_x(), h.spec_y(), ps));
    assert forall|c: int| 0 <= c < h.counts().len() implies #[trigger] p.incremented(e)[c] >= h.counts()[c] by {
        assert(fill_2d(h.counts(), h.spec_x(), h.spec_y(), ps)[c] >= h.counts()[c]);
    }
    lemma_pgamma_points_present(xids, yids, e);
    assert forall|c: int|
        0 <= c < h.counts().len() && #[trigger] p.incremented(e)[c] != h.counts()[c] implies exists|
            i: int,
            k: int,
            u: i64,
            w: i64,
        |
            #![trigger xids[i], yids[k], h.cell_of(u, w)]
            0 <= i < xids.len() && 0 <= k < yids.len() && e.value_of(xids[i]) == Some(u) && e.value_of(yids[k])
                == Some(w) && h.cell_of(u, w) == c by {
        let j = choose|j: int|
            0 <= j < ps.len() && super::cell(h.spec_y().spec_num_bins(), h.spec_x().index_of(ps[j].0), h.spec_y().index_of(ps[j].1)) == c;
        assert(0 <= j < ps.len());
        let (i, k) = choose|i: int, k: int|
            0 <= i < xids.len() && 0 <= k < yids.len() && e.value_of(xids[i]) == Some(ps[j].0) && e.value_of(yids[k])
                == Some(ps[j].1);
        assert(h.cell_of(ps[j].0, ps[j].1) == c);
    }
}

} // verus!
