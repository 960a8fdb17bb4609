//! Spectra: histograms with an optional gate and a rule that turns the
//! parameters of an event into bin increments.
//!
//! Every axis is uniform, with `bins` bins over `[low, high)` plus an
//! underflow bin (index 0) and an overflow bin (index `bins + 1`). Values are
//! binned exactly: `v` in `[low, high)` goes to bin
//! `floor((v - low) * bins / (high - low)) + 1`.

pub mod dictionary;
pub mod pgamma;
pub mod simple;
pub mod summary;

use vstd::prelude::*;
use vstd::arithmetic::div_mod::{lemma_div_pos_is_pos, lemma_multiply_divide_lt};
use vstd::arithmetic::mul::{lemma_mul_inequality, lemma_mul_strict_inequality};
use crate::conditions::{handle_value, ConditionDictionary, ConditionHandle};
use crate::errors::{AnalysisError, ErrorKind};
use crate::parameters::{has_name, named, FlatEvent, Parameter, ParameterDictionary};

verus! {

/// Bin of value `v` on a uniform axis, counting the underflow bin as 0.
pub open spec fn bin_index(low: int, high: int, bins: int, v: int) -> int {
    if v < low {
        0
    } else if v >= high {
        bins + 1
    } else {
        (v - low) * bins / (high - low) + 1
    }
}

/// One more count, stopping at the largest `u64`.
pub open spec fn bump(c: u64) -> u64 {
    if c < u64::MAX {
        (c + 1) as u64
    } else {
        c
    }
}

/// Sum of a sequence of bin counts.
pub open spec fn total(s: Seq<u64>) -> int
    decreases s.len(),
{
    if s.len() == 0 {
        0
    } else {
        total(s.drop_last()) + s.last()
    }
}

/// Bins that all hold zero add up to zero.
pub proof fn lemma_cleared_total(s: Seq<u64>)
    requires
        forall|i: int| 0 <= i < s.len() ==> s[i] == 0,
    ensures
        total(s) == 0,
    decreases s.len(),
{
    if s.len() > 0 {
        lemma_cleared_total(s.drop_last());
    }
}

/// A uniform axis: `bins` bins over `[low, high)`, plus underflow and
/// overflow.
#[derive(Clone, Copy, Debug, PartialEq, Eq)]
pub struct Axis {
    low: i64,
    high: i64,
    bins: u32,
}

impl Axis {
    pub closed spec fn spec_low(&self) -> i64 {
        self.low
    }

    pub closed spec fn spec_high(&self) -> i64 {
        self.high
    }

    pub closed spec fn spec_bins(&self) -> u32 {
        self.bins
    }

    pub open spec fn wf(&self) -> bool {
        self.spec_low() < self.spec_high() && self.spec_bins() >= 1 && self.spec_num_bins() <= usize::MAX
    }

    /// Bin of `v`, underflow and overflow included.
    pub open spec fn index_of(&self, v: i64) -> int {
        bin_index(self.spec_low() as int, self.spec_high() as int, self.spec_bins() as int, v as int)
    }

    /// Number of bins, underflow and overflow included.
    pub open spec fn spec_num_bins(&self) -> int {
        self.spec_bins() + 2
    }

    /// An axis of `bins` bins between `low` and `high`, taken in either
    /// order; none where that leaves no bin.
    pub fn new(bins: u32, low: i64, high: i64) -> (r: Option<Axis>)
        ensures
            r is Some <==> bins > 0 && low != high && bins + 2 <= usize::MAX,
            r matches Some(a) ==> {
                &&& a.wf()
                &&& a.spec_bins() == bins
                &&& a.spec_low() == if low < high { low } else { high }
                &&& a.spec_high() == if low < high { high } else { low }
            },
    {
        if bins == 0 || low == high || bins as usize > usize::MAX - 2 {
            None
        } else if low < high {
            Some(Axis { low, high, bins })
        } else {
            Some(Axis { low: high, high: low, bins })
        }
    }

    pub fn low(&self) -> (r: i64)
        ensures
            r == self.spec_low(),
    {
        self.low
    }

    pub fn high(&self) -> (r: i64)
        ensures
            r == self.spec_high(),
    {
        self.high
    }

    pub fn bins(&self) -> (r: u32)
        ensures
            r == self.spec_bins(),
    {
        self.bins
    }

    /// Number of bins, underflow and overflow included.
    pub fn num_bins(&self) -> (r: usize)
        requires
            self.wf(),
        ensures
            r == self.spec_num_bins(),
    {
        self.bins as usize + 2
    }

    /// Bin of `v`, underflow and overflow included.
    pub fn index(&self, v: i64) -> (r: usize)
        requires
            self.wf(),
        ensures
            r == self.index_of(v),
            r < self.spec_num_bins(),
    {
        if v < self.low {
            0
        } else if v >= self.high {
            self.bins as usize + 1
        } else {
            let offset = (v as i128 - self.low as i128) as u128;
            let width = (self.high as i128 - self.low as i128) as u128;
            proof {
                let o = offset as int;
                let b = self.bins as int;
                lemma_index_in_range(*self, v);
                assert(o * b <= 0x1_0000_0000_0000_0000 * 0x1_0000_0000) by (nonlinear_arith)
                    requires
                        0 <= o < 0x1_0000_0000_0000_0000,
                        0 <= b < 0x1_0000_0000,
                ;
            }
            ((offset * self.bins as u128) / width) as usize + 1
        }
    }
}

/// Every value has a bin, underflow and overflow included.
pub proof fn lemma_index_in_range(axis: Axis, v: i64)
    requires
        axis.wf(),
    ensures
        0 <= axis.index_of(v) < axis.spec_num_bins(),
{
    let (low, high, b) = (axis.spec_low() as int, axis.spec_high() as int, axis.spec_bins() as int);
    if low <= v < high {
        let o = v - low;
        let w = high - low;
        lemma_mul_strict_inequality(o, w, b);
        assert(w * b == b * w) by (nonlinear_arith);
        lemma_multiply_divide_lt(o * b, w, b);
        assert(0 <= o * b) by (nonlinear_arith)
            requires
                0 <= o,
                0 <= b,
        ;
        lemma_div_pos_is_pos(o * b, w);
    }
}

/// Filling one value adds one to its bin, unless that bin is full, and
/// leaves every other bin as it was.
pub proof fn lemma_fill_one(counts: Seq<u64>, axis: Axis, v: i64)
    requires
        axis.wf(),
        counts.len() == axis.spec_num_bins(),
    ensures
        ({
            let b = axis.index_of(v);
            let c = fill_1d(counts, axis, seq![v]);
            &&& c.len() == counts.len()
            &&& c[b] == bump(counts[b])
            &&& counts[b] < u64::MAX ==> c[b] == counts[b] + 1
            &&& forall|i: int| 0 <= i < counts.len() && i != b ==> c[i] == counts[i]
        }),
{
    lemma_index_in_range(axis, v);
    assert(seq![v].drop_last() =~= Seq::<i64>::empty());
    assert(fill_1d(counts, axis, Seq::<i64>::empty()) == counts);
}

/// Counts after each value of `vs`, in order, adds one to its bin.
pub open spec fn fill_1d(counts: Seq<u64>, axis: Axis, vs: Seq<i64>) -> Seq<u64>
    decreases vs.len(),
{
    if vs.len() == 0 {
        counts
    } else {
        let c = fill_1d(counts, axis, vs.drop_last());
        let b = axis.index_of(vs.last());
        c.update(b, bump(c[b]))
    }
}

/// Cell of bin pair (`ix`, `iy`) when the y axis has `ny` bins in all.
pub open spec fn cell(ny: int, ix: int, iy: int) -> int {
    ix * ny + iy
}

/// Counts after each point of `ps`, in order, adds one to its cell.
pub open spec fn fill_2d(counts: Seq<u64>, x: Axis, y: Axis, ps: Seq<(i64, i64)>) -> Seq<u64>
    decreases ps.len(),
{
    if ps.len() == 0 {
        counts
    } else {
        let c = fill_2d(counts, x, y, ps.drop_last());
        let b = cell(y.spec_num_bins(), x.index_of(ps.last().0), y.index_of(ps.last().1));
        c.update(b, bump(c[b]))
    }
}

/// Bin counts over one axis.
pub struct Histogram1D {
    axis: Axis,
    counts: Vec<u64>,
}

impl Histogram1D {
    pub closed spec fn spec_axis(&self) -> Axis {
        self.axis
    }

    /// Count of each bin, underflow first.
    pub closed spec fn counts(&self) -> Seq<u64> {
        self.counts@
    }

    pub open spec fn wf(&self) -> bool {
        self.spec_axis().wf() && self.counts().len() == self.spec_axis().spec_num_bins()
    }

    /// Empty bins over `axis`.
    pub fn new(axis: Axis) -> (r: Histogram1D)
        requires
            axis.wf(),
        ensures
            r.wf(),
            r.spec_axis() == axis,
            forall|i: int| 0 <= i < r.counts().len() ==> r.counts()[i] == 0,
    {
        let counts = vec![0u64; axis.num_bins()];
        Histogram1D { axis, counts }
    }

    pub fn axis(&self) -> (r: Axis)
        ensures
            r == self.spec_axis(),
    {
        self.axis
    }

    /// Count of bin `i`, underflow being 0.
    pub fn get(&self, i: usize) -> (r: u64)
        requires
            self.wf(),
            i < self.counts().len(),
        ensures
            r == self.counts()[i as int],
    {
        self.counts[i]
    }

    /// Count of the bin that holds `v`.
    pub fn value(&self, v: i64) -> (r: u64)
        requires
            self.wf(),
        ensures
            r == self.counts()[self.spec_axis().index_of(v)],
    {
        self.counts[self.axis.index(v)]
    }

    /// Adds one to the bin of `v`.
    pub fn fill(&mut self, v: i64)
        requires
            old(self).wf(),
        ensures
            final(self).wf(),
            final(self).spec_axis() == old(self).spec_axis(),
            final(self).counts() == fill_1d(old(self).counts(), old(self).spec_axis(), seq![v]),
    {
        let b = self.axis.index(v);
        let c = self.counts[b];
        let n = if c < u64::MAX {
            c + 1
        } else {
            c
        };
        proof {
            assert(seq![v].drop_last() =~= Seq::<i64>::empty());
            assert(fill_1d(self.counts@, self.axis, Seq::<i64>::empty()) == self.counts@);
            assert(fill_1d(self.counts@, self.axis, seq![v]) == self.counts@.update(b as int, n));
        }
        self.counts.set(b, n);
    }

    /// Zeroes every bin.
    pub fn clear(&mut self)
        requires
            old(self).wf(),
        ensures
            final(self).wf(),
            final(self).spec_axis() == old(self).spec_axis(),
            final(self).counts().len() == old(self).counts().len(),
            forall|i: int| 0 <= i < final(self).counts().len() ==> final(self).counts()[i] == 0,
    {
        let mut i: usize = 0;
        while i < self.counts.len()
            invariant
                self.wf(),
                self.axis == old(self).axis,
                i <= self.counts@.len(),
                forall|j: int| 0 <= j < i ==> self.counts@[j] == 0,
            decreases self.counts.len() - i,
        {
            self.counts.set(i, 0);
            i += 1;
        }
    }
}

/// Bin counts over two axes, stored row by row of x.
pub struct Histogram2D {
    x: Axis,
    y: Axis,
    counts: Vec<u64>,
}

impl Histogram2D {
    pub closed spec fn spec_x(&self) -> Axis {
        self.x
    }

    pub closed spec fn spec_y(&self) -> Axis {
        self.y
    }

    /// Count of each cell; bin pair (ix, iy) is cell `ix * ny + iy`.
    pub closed spec fn counts(&self) -> Seq<u64> {
        self.counts@
    }

    pub open spec fn wf(&self) -> bool {
        &&& self.spec_x().wf()
        &&& self.spec_y().wf()
        &&& self.counts().len() == self.spec_x().spec_num_bins() * self.spec_y().spec_num_bins()
    }

    /// Cell of the point (`vx`, `vy`).
    pub open spec fn cell_of(&self, vx: i64, vy: i64) -> int {
        cell(self.spec_y().spec_num_bins(), self.spec_x().index_of(vx), self.spec_y().index_of(vy))
    }

    /// Empty cells over `x` and `y`; none where there are more cells than
    /// an index can count.
    pub fn new(x: Axis, y: Axis) -> (r: Option<Histogram2D>)
        requires
            x.wf(),
            y.wf(),
        ensures
            r is Some <==> x.spec_num_bins() * y.spec_num_bins() <= usize::MAX,
            r matches Some(h) ==> {
                &&& h.wf()
                &&& h.spec_x() == x
                &&& h.spec_y() == y
                &&& forall|i: int| 0 <= i < h.counts().len() ==> h.counts()[i] == 0
            },
    {
        let nx = x.num_bins();
        let ny = y.num_bins();
        match nx.checked_mul(ny) {
            Some(n) => {
                let counts = vec![0u64; n];
                Some(Histogram2D { x, y, counts })
            },
            None => None,
        }
    }

    pub fn x_axis(&self) -> (r: Axis)
        ensures
            r == self.spec_x(),
    {
        self.x
    }

    pub fn y_axis(&self) -> (r: Axis)
        ensures
            r == self.spec_y(),
    {
        self.y
    }

    proof fn lemma_cell_in_range(&self, ix: int, iy: int)
        requires
            self.wf(),
            0 <= ix < self.spec_x().spec_num_bins(),
            0 <= iy < self.spec_y().spec_num_bins(),
        ensures
            0 <= cell(self.spec_y().spec_num_bins(), ix, iy) < self.counts().len(),
    {
        let ny = self.spec_y().spec_num_bins();
        lemma_mul_inequality(ix + 1, self.spec_x().spec_num_bins(), ny);
        assert((ix + 1) * ny == ix * ny + ny) by (nonlinear_arith);
        assert(0 <= ix * ny) by (nonlinear_arith)
            requires
                0 <= ix,
                0 <= ny,
        ;
    }

    /// Count of the cell of bin pair (`ix`, `iy`).
    pub fn get(&self, ix: usize, iy: usize) -> (r: u64)
        requires
            self.wf(),
            ix < self.spec_x().spec_num_bins(),
            iy < self.spec_y().spec_num_bins(),
        ensures
            r == self.counts()[cell(self.spec_y().spec_num_bins(), ix as int, iy as int)],
    {
        let ny = self.y.num_bins();
        let len = self.counts.len();
        proof {
            self.lemma_cell_in_range(ix as int, iy as int);
            assert(ix * ny + iy < len);
        }
        self.counts[ix * ny + iy]
    }

    /// Count of the cell that holds the point (`vx`, `vy`).
    pub fn value(&self, vx: i64, vy: i64) -> (r: u64)
        requires
            self.wf(),
        ensures
            0 <= self.cell_of(vx, vy) < self.counts().len(),
            r == self.counts()[self.cell_of(vx, vy)],
    {
        let ix = self.x.index(vx);
        let iy = self.y.index(vy);
        proof {
            self.lemma_cell_in_range(ix as int, iy as int);
        }
        self.get(ix, iy)
    }

    /// Adds one to the cell of the point (`vx`, `vy`).
    pub fn fill(&mut self, vx: i64, vy: i64)
        requires
            old(self).wf(),
        ensures
            final(self).wf(),
            final(self).spec_x() == old(self).spec_x(),
            final(self).spec_y() == old(self).spec_y(),
            final(self).counts() == fill_2d(
                old(self).counts(),
                old(self).spec_x(),
                old(self).spec_y(),
                seq![(vx, vy)],
            ),
    {
        let ix = self.x.index(vx);
        let iy = self.y.index(vy);
        let ny = self.y.num_bins();
        let len = self.counts.len();
        proof {
            self.lemma_cell_in_range(ix as int, iy as int);
            assert(ix * ny + iy < len);
        }
        let b = ix * ny + iy;
        let c = self.counts[b];
        let n = if c < u64::MAX {
            c + 1
        } else {
            c
        };
        proof {
            let one = seq![(vx, vy)];
            assert(one.drop_last() =~= Seq::<(i64, i64)>::empty());
            assert(one.last() == (vx, vy));
            assert(fill_2d(self.counts@, self.x, self.y, Seq::<(i64, i64)>::empty()) == self.counts@);
            assert(fill_2d(self.counts@, self.x, self.y, one) == self.counts@.update(b as int, n));
        }
        self.counts.set(b, n);
    }

    /// Zeroes every cell.
    pub fn clear(&mut self)
        requires
            old(self).wf(),
        ensures
            final(self).wf(),
            final(self).spec_x() == old(self).spec_x(),
            final(self).spec_y() == old(self).spec_y(),
            final(self).counts().len() == old(self).counts().len(),
            forall|i: int| 0 <= i < final(self).counts().len() ==> final(self).counts()[i] == 0,
    {
        let mut i: usize = 0;
        while i < self.counts.len()
            invariant
                self.wf(),
                self.x == old(self).x,
                self.y == old(self).y,
                i <= self.counts@.len(),
                forall|j: int| 0 <= j < i ==> self.counts@[j] == 0,
            decreases self.counts.len() - i,
        {
            self.counts.set(i, 0);
            i += 1;
        }
    }
}

/// Filling a sequence of points one after another gives the fold of
/// `fill_2d` over them.
pub proof fn lemma_fill_2d_push(counts: Seq<u64>, x: Axis, y: Axis, ps: Seq<(i64, i64)>, p: (i64, i64))
    ensures
        fill_2d(counts, x, y, ps.push(p)) == fill_2d(fill_2d(counts, x, y, ps), x, y, seq![p]),
{
    let one = seq![p];
    assert(ps.push(p).drop_last() == ps);
    assert(ps.push(p).last() == p);
    assert(one.drop_last() =~= Seq::<(i64, i64)>::empty());
    assert(one.last() == p);
    let c = fill_2d(counts, x, y, ps);
    assert(fill_2d(c, x, y, Seq::<(i64, i64)>::empty()) == c);
}

/// Filling points whose cells are pairwise distinct adds one to the cell
/// of each point, unless that cell is full.
pub proof fn lemma_fill_2d_distinct(counts: Seq<u64>, x: Axis, y: Axis, ps: Seq<(i64, i64)>)
    requires
        x.wf(),
        y.wf(),
        counts.len() == x.spec_num_bins() * y.spec_num_bins(),
        forall|j1: int, j2: int|
            0 <= j1 < ps.len() && 0 <= j2 < ps.len() && j1 != j2 ==> cell(
                y.spec_num_bins(),
                x.index_of(#[trigger] ps[j1].0),
                y.index_of(ps[j1].1),
            ) != cell(y.spec_num_bins(), x.index_of(#[trigger] ps[j2].0), y.index_of(ps[j2].1)),
    ensures
        forall|j: int|
            0 <= j < ps.len() ==> {
                let c = cell(y.spec_num_bins(), x.index_of(#[trigger] ps[j].0), y.index_of(ps[j].1));
                fill_2d(counts, x, y, ps)[c] == bump(counts[c])
            },
    decreases ps.len(),
{
    if ps.len() > 0 {
        let rest = ps.drop_last();
        let ny = y.spec_num_bins();
        assert forall|j1: int, j2: int|
            0 <= j1 < rest.len() && 0 <= j2 < rest.len() && j1 != j2 implies cell(
            ny,
            x.index_of(#[trigger] rest[j1].0),
            y.index_of(rest[j1].1),
        ) != cell(ny, x.index_of(#[trigger] rest[j2].0), y.index_of(rest[j2].1)) by {
            assert(rest[j1] == ps[j1] && rest[j2] == ps[j2]);
        }
        lemma_fill_2d_distinct(counts, x, y, rest);
        lemma_fill_2d_frame(counts, x, y, rest);
        let r = fill_2d(counts, x, y, rest);
        let last = ps.last();
        let b = cell(ny, x.index_of(last.0), y.index_of(last.1));
        lemma_cell_in_range(x, y, last.0, last.1);
        assert(fill_2d(counts, x, y, ps) == r.update(b, bump(r[b])));
        assert(ps[ps.len() - 1] == last);
        assert(r[b] == counts[b]) by {
            if r[b] != counts[b] {
                let j = choose|j: int|
                    0 <= j < rest.len() && cell(ny, x.index_of(rest[j].0), y.index_of(rest[j].1)) == b;
                assert(rest[j] == ps[j]);
            }
        }
        assert forall|j: int| 0 <= j < ps.len() implies {
            let c = cell(ny, x.index_of(#[trigger] ps[j].0), y.index_of(ps[j].1));
            fill_2d(counts, x, y, ps)[c] == bump(counts[c])
        } by {
            if j < rest.len() {
                assert(rest[j] == ps[j]);
                lemma_cell_in_range(x, y, ps[j].0, ps[j].1);
            }
        }
    }
}

/// Every point has a cell.
pub proof fn lemma_cell_in_range(x: Axis, y: Axis, vx: i64, vy: i64)
    requires
        x.wf(),
        y.wf(),
    ensures
        0 <= cell(y.spec_num_bins(), x.index_of(vx), y.index_of(vy)) < x.spec_num_bins() * y.spec_num_bins(),
{
    lemma_index_in_range(x, vx);
    lemma_index_in_range(y, vy);
    let (ix, iy, nx, ny) = (x.index_of(vx), y.index_of(vy), x.spec_num_bins(), y.spec_num_bins());
    lemma_mul_inequality(ix + 1, nx, ny);
    assert((ix + 1) * ny == ix * ny + ny) by (nonlinear_arith);
    assert(0 <= ix * ny) by (nonlinear_arith)
        requires
            0 <= ix,
            0 <= ny,
    ;
}

/// Filling points changes only the cells of those points, and never lowers
/// a count.
pub proof fn lemma_fill_2d_frame(counts: Seq<u64>, x: Axis, y: Axis, ps: Seq<(i64, i64)>)
    requires
        x.wf(),
        y.wf(),
        counts.len() == x.spec_num_bins() * y.spec_num_bins(),
    ensures
        fill_2d(counts, x, y, ps).len() == counts.len(),
        forall|c: int|
            0 <= c < counts.len() ==> (#[trigger] fill_2d(counts, x, y, ps)[c]) >= counts[c],
        forall|c: int|
            0 <= c < counts.len() && #[trigger] fill_2d(counts, x, y, ps)[c] != counts[c] ==> exists|j: int|
                0 <= j < ps.len() && cell(y.spec_num_bins(), x.index_of(ps[j].0), y.index_of(ps[j].1)) == c,
    decreases ps.len(),
{
    if ps.len() > 0 {
        let rest = ps.drop_last();
        lemma_fill_2d_frame(counts, x, y, rest);
        let r = fill_2d(counts, x, y, rest);
        let b = cell(y.spec_num_bins(), x.index_of(ps.last().0), y.index_of(ps.last().1));
        lemma_cell_in_range(x, y, ps.last().0, ps.last().1);
        assert(fill_2d(counts, x, y, ps) == r.update(b, bump(r[b])));
        assert forall|c: int|
            0 <= c < counts.len() && #[trigger] fill_2d(counts, x, y, ps)[c] != counts[c] implies exists|j: int|
                0 <= j < ps.len() && cell(y.spec_num_bins(), x.index_of(ps[j].0), y.index_of(ps[j].1)) == c by {
            if c == b {
                assert(ps[ps.len() - 1] == ps.last());
            } else {
                assert(r[c] != counts[c]);
                let j = choose|j: int|
                    0 <= j < rest.len() && cell(y.spec_num_bins(), x.index_of(rest[j].0), y.index_of(rest[j].1)) == c;
                assert(ps[j] == rest[j]);
            }
        }
        assert forall|c: int| 0 <= c < counts.len() implies (#[trigger] fill_2d(counts, x, y, ps)[c]) >= counts[c] by {
            assert(r[c] >= counts[c]);
        }
    }
}

/// What gates a spectrum: none, or a condition known by name and
/// held through a handle.
pub struct SpectrumGate {
    gate: Option<(String, ConditionHandle)>,
}

impl SpectrumGate {
    /// The handle of the applied condition, if any.
    pub closed spec fn spec_handle(&self) -> Option<ConditionHandle> {
        match self.gate {
            Some((_, h)) => Some(h),
            None => None,
        }
    }

    /// Name of the applied condition, if any.
    pub closed spec fn spec_gate_name(&self) -> Option<Seq<char>> {
        match self.gate {
            Some((n, _)) => Some(n@),
            None => None,
        }
    }

    /// Whether an event passes: always when ungated, else when the
    /// condition still resolves and holds.
    pub open spec fn passes(&self, conds: Seq<Option<crate::conditions::Gate>>, e: FlatEvent) -> bool {
        match self.spec_handle() {
            None => true,
            Some(h) => handle_value(conds, h, e),
        }
    }

    /// No gate.
    pub fn new() -> (r: SpectrumGate)
        ensures
            r.spec_handle() is None,
            r.spec_gate_name() is None,
    {
        SpectrumGate { gate: None }
    }

    /// Applies the condition called `name`, or fails with `NoSuchGate`.
    pub fn set_gate(&mut self, name: &str, dict: &ConditionDictionary) -> (r: Result<(), AnalysisError>)
        requires
            dict.wf(),
        ensures
            r is Ok <==> dict.binding(name@) is Some,
            r is Err ==> (r matches Err(AnalysisError::NoSuchGate(s)) && s@ == name@),
            r is Ok ==> (final(self).spec_handle() matches Some(h) && dict.binding(name@) == Some(h.index())),
            r is Ok ==> final(self).spec_gate_name() == Some(name@),
            r is Err ==> *final(self) == *old(self),
    {
        match dict.lookup(name) {
            Some(h) => {
                self.gate = Some((name.to_owned(), h));
                Ok(())
            },
            None => Err(AnalysisError::NoSuchGate(name.to_owned())),
        }
    }

    /// Removes its gate.
    pub fn ungate(&mut self)
        ensures
            final(self).spec_handle() is None,
            final(self).spec_gate_name() is None,
    {
        self.gate = None;
    }

    /// Name of the applied condition, if any.
    pub fn gate_name(&self) -> (r: Option<String>)
        ensures
            r is Some <==> self.spec_handle() is Some,
            r matches Some(n) ==> self.spec_gate_name() == Some(n@),
    {
        match &self.gate {
            Some((n, _)) => Some(n.clone()),
            None => None,
        }
    }

    /// Whether `e` passes; may fill condition caches.
    pub fn check(&self, conds: &mut ConditionDictionary, e: &FlatEvent) -> (r: bool)
        requires
            old(conds).wf(),
        ensures
            final(conds).wf(),
            final(conds)@ == old(conds)@,
            forall|n: Seq<char>| final(conds).binding(n) == old(conds).binding(n),
            final(conds).cache().len() == old(conds).cache().len(),
            old(conds).caches_valid(*e) ==> final(conds).caches_valid(*e) && r == self.passes(
                old(conds)@,
                *e,
            ),
            self.spec_handle() is None ==> r,
    {
        match &self.gate {
            None => true,
            Some((_, h)) => conds.check(h, e),
        }
    }
}

/// A parameter as a spectrum refers to it.
pub struct SpectrumParameter {
    pub name: String,
    pub id: u32,
}

/// The lesser of two optional values, ignoring a missing one.
pub open spec fn least(a: Option<i64>, b: Option<i64>) -> Option<i64> {
    match (a, b) {
        (Some(x), Some(y)) => Some(if x < y { x } else { y }),
        (Some(x), None) => Some(x),
        (None, y) => y,
    }
}

/// The greater of two optional values, ignoring a missing one.
pub open spec fn greatest(a: Option<i64>, b: Option<i64>) -> Option<i64> {
    match (a, b) {
        (Some(x), Some(y)) => Some(if x > y { x } else { y }),
        (Some(x), None) => Some(x),
        (None, y) => y,
    }
}

/// The greater of two optional bin counts, ignoring a missing one.
pub open spec fn most_bins(a: Option<u32>, b: Option<u32>) -> Option<u32> {
    match (a, b) {
        (Some(x), Some(y)) => Some(if x > y { x } else { y }),
        (Some(x), None) => Some(x),
        (None, y) => y,
    }
}

/// The value given, else the default.
pub open spec fn given_or(given: Option<i64>, default: Option<i64>) -> Option<i64> {
    if given is Some {
        given
    } else {
        default
    }
}

/// The bin count given, else the default.
pub open spec fn given_bins_or(given: Option<u32>, default: Option<u32>) -> Option<u32> {
    if given is Some {
        given
    } else {
        default
    }
}

/// The first of `names` that is not registered in `pd`.
pub open spec fn unknown_name(pd: Seq<Parameter>, names: Seq<String>) -> Option<Seq<char>>
    decreases names.len(),
{
    if names.len() == 0 {
        None
    } else {
        match unknown_name(pd, names.drop_last()) {
            Some(n) => Some(n),
            None => if has_name(pd, names.last()@) {
                None
            } else {
                Some(names.last()@)
            },
        }
    }
}

/// Axis defaults of the parameters called `names`: the least low limit,
/// the greatest high limit and the greatest bin count, each over the
/// parameters that have one.
pub open spec fn axis_defaults(pd: Seq<Parameter>, names: Seq<String>) -> (Option<i64>, Option<i64>, Option<u32>)
    decreases names.len(),
{
    if names.len() == 0 {
        (None, None, None)
    } else {
        let d = axis_defaults(pd, names.drop_last());
        let p = named(pd, names.last()@);
        (least(d.0, p.spec_low()), greatest(d.1, p.spec_high()), most_bins(d.2, p.spec_bins()))
    }
}

/// The axis (low, high, bins) that defaults `d` and the given values fix,
/// given values winning; or the error: the first coordinate left undefined,
/// or an axis with no bin. `x` says which axis it is, for the error names.
pub open spec fn axis_outcome(
    d: (Option<i64>, Option<i64>, Option<u32>),
    low: Option<i64>,
    high: Option<i64>,
    bins: Option<u32>,
    x: bool,
) -> Result<(i64, i64, u32), (ErrorKind, Seq<char>)> {
    let l = given_or(low, d.0);
    let h = given_or(high, d.1);
    let b = given_bins_or(bins, d.2);
    if l is None {
        Err((ErrorKind::AxisUndefined, if x { "x-low"@ } else { "y-low"@ }))
    } else if h is None {
        Err((ErrorKind::AxisUndefined, if x { "x-high"@ } else { "y-high"@ }))
    } else if b is None {
        Err((ErrorKind::AxisUndefined, if x { "x-bins"@ } else { "y-bins"@ }))
    } else if b->0 == 0 || l->0 == h->0 || b->0 + 2 > usize::MAX {
        Err((ErrorKind::InvalidAxis, if x { "x"@ } else { "y"@ }))
    } else if l->0 < h->0 {
        Ok((l->0, h->0, b->0))
    } else {
        Ok((h->0, l->0, b->0))
    }
}

fn opt_min(a: Option<i64>, b: Option<i64>) -> (r: Option<i64>)
    ensures
        r == least(a, b),
{
    match (a, b) {
        (Some(x), Some(y)) => Some(if x < y { x } else { y }),
        (Some(x), None) => Some(x),
        (None, y) => y,
    }
}

fn opt_max(a: Option<i64>, b: Option<i64>) -> (r: Option<i64>)
    ensures
        r == greatest(a, b),
{
    match (a, b) {
        (Some(x), Some(y)) => Some(if x > y { x } else { y }),
        (Some(x), None) => Some(x),
        (None, y) => y,
    }
}

fn opt_max_bins(a: Option<u32>, b: Option<u32>) -> (r: Option<u32>)
    ensures
        r == most_bins(a, b),
{
    match (a, b) {
        (Some(x), Some(y)) => Some(if x > y { x } else { y }),
        (Some(x), None) => Some(x),
        (None, y) => y,
    }
}

/// Resolves the parameters called `params`, in order, and gathers their
/// axis defaults. Fails on the first name that is not registered.
pub fn make_axis_def(params: &Vec<String>, pdict: &ParameterDictionary) -> (r: Result<
    (Option<i64>, Option<i64>, Option<u32>, Vec<SpectrumParameter>),
    AnalysisError,
>)
    requires
        pdict.wf(),
    ensures
        r is Err <==> unknown_name(pdict@, params@) is Some,
        r matches Err(e) ==> e@ == (ErrorKind::UnknownParameter, unknown_name(pdict@, params@)->0),
        r matches Ok((l, h, b, sp)) ==> {
            &&& (l, h, b) == axis_defaults(pdict@, params@)
            &&& sp@.len() == params@.len()
            &&& forall|i: int|
                0 <= i < sp@.len() ==> (#[trigger] sp@[i]).name@ == params@[i]@ && sp@[i].id == named(
                    pdict@,
                    params@[i]@,
                ).spec_id()
        },
{
    let mut low: Option<i64> = None;
    let mut high: Option<i64> = None;
    let mut bins: Option<u32> = None;
    let mut sp: Vec<SpectrumParameter> = Vec::new();
    let mut i: usize = 0;
    while i < params.len()
        invariant
            pdict.wf(),
            i <= params@.len(),
            unknown_name(pdict@, params@.take(i as int)) is None,
            (low, high, bins) == axis_defaults(pdict@, params@.take(i as int)),
            sp@.len() == i,
            forall|k: int|
                0 <= k < i ==> (#[trigger] sp@[k]).name@ == params@[k]@ && sp@[k].id == named(
                    pdict@,
                    params@[k]@,
                ).spec_id(),
        decreases params.len() - i,
    {
        let ghost pre = params@.take(i as int);
        assert(params@.take(i + 1).drop_last() == pre);
        assert(params@.take(i + 1).last() == params@[i as int]);
        match pdict.lookup(params[i].as_str()) {
            Some(p) => {
                let lims = p.get_limits();
                low = opt_min(low, lims.0);
                high = opt_max(high, lims.1);
                bins = opt_max_bins(bins, p.get_bins());
                sp.push(SpectrumParameter { name: params[i].clone(), id: p.get_id() });
            },
            None => {
                proof {
                    // Every earlier name is known, so this is the first unknown one.
                    assert(unknown_name(pdict@, params@.take(i + 1)) == Some(params@[i as int]@));
                    lemma_unknown_name_extends(pdict@, params@, (i + 1) as int);
                }
                return Err(AnalysisError::UnknownParameter(params[i].clone()));
            },
        }
        i += 1;
    }
    assert(params@.take(i as int) == params@);
    Ok((low, high, bins, sp))
}

/// Once a prefix of `names` holds an unknown name, so does every longer
/// prefix, and it is the same name.
proof fn lemma_unknown_name_extends(pd: Seq<Parameter>, names: Seq<String>, n: int)
    requires
        0 <= n <= names.len(),
        unknown_name(pd, names.take(n)) is Some,
    ensures
        unknown_name(pd, names) == unknown_name(pd, names.take(n)),
    decreases names.len() - n,
{
    if n < names.len() {
        assert(names.take(n + 1).drop_last() == names.take(n));
        lemma_unknown_name_extends(pd, names, n + 1);
    } else {
        assert(names.take(n) == names);
    }
}

/// Fixes an axis from its defaults and the values given for it.
pub fn resolve_axis(
    d: (Option<i64>, Option<i64>, Option<u32>),
    low: Option<i64>,
    high: Option<i64>,
    bins: Option<u32>,
    x: bool,
) -> (r: Result<Axis, AnalysisError>)
    ensures
        match axis_outcome(d, low, high, bins, x) {
            Ok(t) => r matches Ok(a) && a.wf() && (a.spec_low(), a.spec_high(), a.spec_bins()) == t,
            Err(e) => r matches Err(er) && er@ == e,
        },
{
    let l = if low.is_some() {
        low
    } else {
        d.0
    };
    let h = if high.is_some() {
        high
    } else {
        d.1
    };
    let b = if bins.is_some() {
        bins
    } else {
        d.2
    };
    match (l, h, b) {
        (None, _, _) => Err(AnalysisError::AxisUndefined(if x { "x-low" } else { "y-low" }.to_owned())),
        (Some(_), None, _) => Err(AnalysisError::AxisUndefined(if x { "x-high" } else { "y-high" }.to_owned())),
        (Some(_), Some(_), None) => Err(AnalysisError::AxisUndefined(if x { "x-bins" } else { "y-bins" }.to_owned())),
        (Some(lo), Some(hi), Some(n)) => match Axis::new(n, lo, hi) {
            Some(a) => Ok(a),
            None => Err(AnalysisError::InvalidAxis(if x { "x" } else { "y" }.to_owned())),
        },
    }
}

} // verus!
