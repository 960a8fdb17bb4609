//! Conditions ("gates"): boolean functions of the parameter values of an
//! event. A condition applied to a spectrum decides, event by event,
//! whether the spectrum is incremented.
//!
//! Conditions live in a [`ConditionDictionary`], which binds names to them
//! and owns them. Everything else refers to a condition through a
//! [`ConditionHandle`], which works like a weak reference: when the name is
//! rebound or removed the condition is destroyed, and every handle to it
//! stops resolving. A handle that does not resolve evaluates as false.
//!
//! A compound condition can only depend on conditions entered into the
//! dictionary before it, so dependencies never form a cycle.
//!
//! The dictionary also keeps, for each condition, the value it had for the
//! event being processed. The cache is only meaningful within one event:
//! whoever moves on to the next event must call
//! [`ConditionDictionary::invalidate_all`] first.

pub mod compound;

use vstd::prelude::*;
use crate::parameters::FlatEvent;
use self::compound::{And, Not, Or};

verus! {

/// What makes a primitive condition: a predicate over one flattened event.
pub trait Condition {
    /// Whether the condition holds for `e`.
    spec fn holds(&self, e: &FlatEvent) -> bool;

    /// Computes the condition for `e`.
    fn evaluate(&self, e: &FlatEvent) -> (r: bool)
        ensures
            r == self.holds(e),
    ;
}

/// Holds for every event.
pub struct True {}

impl Condition for True {
    open spec fn holds(&self, e: &FlatEvent) -> bool {
        true
    }

    fn evaluate(&self, e: &FlatEvent) -> (r: bool) {
        true
    }
}

/// Holds for no event.
pub struct False {}

impl Condition for False {
    open spec fn holds(&self, e: &FlatEvent) -> bool {
        false
    }

    fn evaluate(&self, e: &FlatEvent) -> (r: bool) {
        false
    }
}

/// Holds when the parameter is present with a value in `low..=high`.
pub struct Cut {
    pub parameter_id: u32,
    pub low: i64,
    pub high: i64,
}

impl Cut {
    pub fn new(parameter_id: u32, low: i64, high: i64) -> (r: Cut)
        ensures
            r == (Cut { parameter_id, low, high }),
    {
        Cut { parameter_id, low, high }
    }
}

impl Condition for Cut {
    open spec fn holds(&self, e: &FlatEvent) -> bool {
        match e.value_of(self.parameter_id) {
            Some(v) => self.low <= v <= self.high,
            None => false,
        }
    }

    fn evaluate(&self, e: &FlatEvent) -> (r: bool) {
        match e.get(self.parameter_id) {
            Some(v) => self.low <= v && v <= self.high,
            None => false,
        }
    }
}

/// Whether the edge from `a` to `b` crosses the ray that runs from
/// (`x`, `y`) towards increasing x: the edge straddles the line at height
/// `y` (its lower end counting as above-or-on, its upper end as above) and
/// meets that line right of `x`.
pub open spec fn crosses(a: (i64, i64), b: (i64, i64), x: int, y: int) -> bool {
    let (xi, yi, xj, yj) = (a.0 as int, a.1 as int, b.0 as int, b.1 as int);
    &&& (yi > y) != (yj > y)
    &&& if yj > yi {
        (x - xi) * (yj - yi) < (xj - xi) * (y - yi)
    } else {
        (x - xi) * (yj - yi) > (xj - xi) * (y - yi)
    }
}

/// Whether an odd number of the first `n` edges of the closed polygon
/// `pts` cross the ray from (`x`, `y`); edge `k` runs from point `k` to the
/// next, the last one back to the first.
pub open spec fn odd_crossings(pts: Seq<(i64, i64)>, x: int, y: int, n: nat) -> bool
    decreases n,
{
    if n == 0 || n > pts.len() {
        false
    } else {
        let k = n - 1;
        let next = if k + 1 == pts.len() { 0 } else { k + 1 };
        odd_crossings(pts, x, y, (n - 1) as nat) != crosses(pts[k], pts[next], x, y)
    }
}

proof fn lemma_signed_product(a: int, b: int)
    ensures
        a * b == if (a < 0) != (b < 0) {
            -((if a < 0 { -a } else { a }) * (if b < 0 { -b } else { b }))
        } else {
            (if a < 0 { -a } else { a }) * (if b < 0 { -b } else { b })
        },
{
    if a < 0 && b < 0 {
        assert(a * b == (-a) * (-b)) by (nonlinear_arith);
    } else if a < 0 {
        assert(a * b == -((-a) * b)) by (nonlinear_arith);
    } else if b < 0 {
        assert(a * b == -(a * (-b))) by (nonlinear_arith);
    }
}

/// Magnitude of `a`, and whether it is negative.
fn sign_magnitude(a: i128) -> (r: (bool, u128))
    requires
        -0x1_0000_0000_0000_0000 < a < 0x1_0000_0000_0000_0000,
    ensures
        r.0 == (a < 0),
        r.1 as int == if a < 0 { -(a as int) } else { a as int },
        r.1 < 0x1_0000_0000_0000_0000,
{
    if a < 0 {
        (true, (-a) as u128)
    } else {
        (false, a as u128)
    }
}

/// Whether `a * b < c * d`, exactly, for factors below 2^64 in magnitude.
fn product_less(a: i128, b: i128, c: i128, d: i128) -> (r: bool)
    requires
        -0x1_0000_0000_0000_0000 < a < 0x1_0000_0000_0000_0000,
        -0x1_0000_0000_0000_0000 < b < 0x1_0000_0000_0000_0000,
        -0x1_0000_0000_0000_0000 < c < 0x1_0000_0000_0000_0000,
        -0x1_0000_0000_0000_0000 < d < 0x1_0000_0000_0000_0000,
    ensures
        r == (a * b < c * d),
{
    let (na, ma) = sign_magnitude(a);
    let (nb, mb) = sign_magnitude(b);
    let (nc, mc) = sign_magnitude(c);
    let (nd, md) = sign_magnitude(d);
    proof {
        assert(ma * mb < 0x1_0000_0000_0000_0000 * 0x1_0000_0000_0000_0000) by (nonlinear_arith)
            requires
                0 <= ma < 0x1_0000_0000_0000_0000,
                0 <= mb < 0x1_0000_0000_0000_0000,
        ;
        assert(mc * md < 0x1_0000_0000_0000_0000 * 0x1_0000_0000_0000_0000) by (nonlinear_arith)
            requires
                0 <= mc < 0x1_0000_0000_0000_0000,
                0 <= md < 0x1_0000_0000_0000_0000,
        ;
        assert(0 <= ma * mb) by (nonlinear_arith)
            requires
                0 <= ma,
                0 <= mb,
        ;
        assert(0 <= mc * md) by (nonlinear_arith)
            requires
                0 <= mc,
                0 <= md,
        ;
        lemma_signed_product(a as int, b as int);
        lemma_signed_product(c as int, d as int);
    }
    let p = ma * mb;
    let q = mc * md;
    let p_negative = na != nb;
    let q_negative = nc != nd;
    if p_negative && q_negative {
        p > q
    } else if p_negative {
        !(p == 0 && q == 0)
    } else if q_negative {
        false
    } else {
        p < q
    }
}

/// Holds when both parameters are present and their point lies inside the
/// closed polygon, by the even-odd rule. Points on a left or bottom edge
/// count as inside, points on a right or top edge as outside.
pub struct Contour {
    pub x_id: u32,
    pub y_id: u32,
    pub points: Vec<(i64, i64)>,
}

impl Contour {
    /// The polygon through `points`, closed from the last back to the first.
    pub fn new(x_id: u32, y_id: u32, points: Vec<(i64, i64)>) -> (r: Contour)
        ensures
            r.x_id == x_id,
            r.y_id == y_id,
            r.points@ == points@,
    {
        Contour { x_id, y_id, points }
    }

    /// Whether (`x`, `y`) lies inside the polygon.
    pub fn inside(&self, x: i64, y: i64) -> (r: bool)
        ensures
            r == odd_crossings(self.points@, x as int, y as int, self.points@.len()),
    {
        let n = self.points.len();
        let mut odd = false;
        let mut k: usize = 0;
        while k < n
            invariant
                n == self.points@.len(),
                k <= n,
                odd == odd_crossings(self.points@, x as int, y as int, k as nat),
            decreases n - k,
        {
            let a = self.points[k];
            let b = self.points[if k + 1 == n {
                0
            } else {
                k + 1
            }];
            let straddles = (a.1 > y) != (b.1 > y);
            let crossing = if !straddles {
                false
            } else {
                let dx = x as i128 - a.0 as i128;
                let dy = y as i128 - a.1 as i128;
                let ex = b.0 as i128 - a.0 as i128;
                let ey = b.1 as i128 - a.1 as i128;
                if b.1 > a.1 {
                    product_less(dx, ey, ex, dy)
                } else {
                    product_less(ex, dy, dx, ey)
                }
            };
            odd = odd != crossing;
            k += 1;
        }
        odd
    }
}

impl Condition for Contour {
    open spec fn holds(&self, e: &FlatEvent) -> bool {
        match (e.value_of(self.x_id), e.value_of(self.y_id)) {
            (Some(x), Some(y)) => odd_crossings(self.points@, x as int, y as int, self.points@.len()),
            _ => false,
        }
    }

    fn evaluate(&self, e: &FlatEvent) -> (r: bool) {
        match (e.get(self.x_id), e.get(self.y_id)) {
            (Some(x), Some(y)) => self.inside(x, y),
            _ => false,
        }
    }
}

/// Any condition that the dictionary can hold.
pub enum Gate {
    True(True),
    False(False),
    Cut(Cut),
    Contour(Contour),
    Not(Not),
    And(And),
    Or(Or),
}

/// Refers to a condition of a dictionary without owning it.
#[derive(Clone, Copy, Debug, PartialEq, Eq)]
pub struct ConditionHandle {
    slot: usize,
}

impl ConditionHandle {
    /// The dictionary slot that the handle refers to.
    pub closed spec fn index(&self) -> nat {
        self.slot as nat
    }
}

/// Whether dependency `j` of the condition in slot `k` resolves. A
/// condition can only depend on conditions entered before it.
pub open spec fn dep_live(conds: Seq<Option<Gate>>, k: nat, j: nat) -> bool {
    j < k && j < conds.len() && conds[j as int] is Some
}

/// Value of the condition in slot `k` for event `e`; false where the slot
/// holds no condition.
pub open spec fn gate_value(conds: Seq<Option<Gate>>, k: nat, e: FlatEvent) -> bool
    decreases k, 2nat, 0nat,
{
    if k >= conds.len() || conds[k as int] is None {
        false
    } else {
        match conds[k as int]->0 {
            Gate::True(t) => t.holds(&e),
            Gate::False(f) => f.holds(&e),
            Gate::Cut(c) => c.holds(&e),
            Gate::Contour(c) => c.holds(&e),
            Gate::Not(n) => dep_live(conds, k, n.target().index()) && !dep_value(
                conds,
                k,
                n.target().index(),
                e,
            ),
            Gate::And(a) => all_deps(conds, k, a@, a@.len(), e),
            Gate::Or(o) => any_dep(conds, k, o@, o@.len(), e),
        }
    }
}

/// Value of dependency `j` of the condition in slot `k`: false where it
/// does not resolve.
pub open spec fn dep_value(conds: Seq<Option<Gate>>, k: nat, j: nat, e: FlatEvent) -> bool
    decreases k, 0nat, 0nat,
{
    if dep_live(conds, k, j) {
        gate_value(conds, j, e)
    } else {
        false
    }
}

/// Whether the first `n` of `deps` all hold.
pub open spec fn all_deps(
    conds: Seq<Option<Gate>>,
    k: nat,
    deps: Seq<ConditionHandle>,
    n: nat,
    e: FlatEvent,
) -> bool
    decreases k, 1nat, n,
{
    if n == 0 || n > deps.len() {
        true
    } else {
        all_deps(conds, k, deps, (n - 1) as nat, e) && dep_value(conds, k, deps[n - 1].index(), e)
    }
}

/// Whether one of the first `n` of `deps` holds.
pub open spec fn any_dep(
    conds: Seq<Option<Gate>>,
    k: nat,
    deps: Seq<ConditionHandle>,
    n: nat,
    e: FlatEvent,
) -> bool
    decreases k, 1nat, n,
{
    if n == 0 || n > deps.len() {
        false
    } else {
        any_dep(conds, k, deps, (n - 1) as nat, e) || dep_value(conds, k, deps[n - 1].index(), e)
    }
}

/// Value of the condition a handle refers to: false where it does not
/// resolve.
pub open spec fn handle_value(conds: Seq<Option<Gate>>, h: ConditionHandle, e: FlatEvent) -> bool {
    h.index() < conds.len() && conds[h.index() as int] is Some && gate_value(conds, h.index(), e)
}

proof fn lemma_all_deps_forall(
    conds: Seq<Option<Gate>>,
    k: nat,
    deps: Seq<ConditionHandle>,
    n: nat,
    e: FlatEvent,
)
    requires
        n <= deps.len(),
    ensures
        all_deps(conds, k, deps, n, e) <==> forall|i: int| 0 <= i < n ==> #[trigger] dep_value(conds, k, deps[i].index(), e),
    decreases n,
{
    if n > 0 {
        lemma_all_deps_forall(conds, k, deps, (n - 1) as nat, e);
        if all_deps(conds, k, deps, n, e) {
            assert forall|i: int| 0 <= i < n implies #[trigger] dep_value(conds, k, deps[i].index(), e) by {
                if i < n - 1 {
                    assert(dep_value(conds, k, deps[i].index(), e));
                }
            }
        }
        if forall|i: int| 0 <= i < n ==> #[trigger] dep_value(conds, k, deps[i].index(), e) {
            assert(dep_value(conds, k, deps[n - 1].index(), e));
            assert forall|i: int| 0 <= i < n - 1 implies #[trigger] dep_value(conds, k, deps[i].index(), e) by {
                assert(dep_value(conds, k, deps[i].index(), e));
            }
        }
    }
}

proof fn lemma_any_dep_exists(
    conds: Seq<Option<Gate>>,
    k: nat,
    deps: Seq<ConditionHandle>,
    n: nat,
    e: FlatEvent,
)
    requires
        n <= deps.len(),
    ensures
        any_dep(conds, k, deps, n, e) <==> exists|i: int| 0 <= i < n && #[trigger] dep_value(conds, k, deps[i].index(), e),
    decreases n,
{
    if n > 0 {
        lemma_any_dep_exists(conds, k, deps, (n - 1) as nat, e);
        if dep_value(conds, k, deps[n - 1].index(), e) {
            assert(exists|i: int| 0 <= i < n && #[trigger] dep_value(conds, k, deps[i].index(), e));
        }
    }
}

/// Whether every dependency of the compound in slot `k` resolves.
pub open spec fn deps_live(conds: Seq<Option<Gate>>, k: nat) -> bool {
    match conds[k as int]->0 {
        Gate::Not(n) => dep_live(conds, k, n.target().index()),
        Gate::And(a) => forall|i: int| 0 <= i < a@.len() ==> dep_live(conds, k, #[trigger] a@[i].index()),
        Gate::Or(o) => forall|i: int| 0 <= i < o@.len() ==> dep_live(conds, k, #[trigger] o@[i].index()),
        _ => true,
    }
}

/// While all its dependencies resolve, a compound condition has the value
/// of its boolean formula over the values of its dependencies: the negation
/// for `Not`, the conjunction for `And`, the disjunction for `Or`. Stopping
/// early at the first deciding dependency does not change the result.
pub proof fn lemma_compound_formula(conds: Seq<Option<Gate>>, k: nat, e: FlatEvent)
    requires
        k < conds.len(),
        conds[k as int] is Some,
        deps_live(conds, k),
    ensures
        match conds[k as int]->0 {
            Gate::Not(n) => gate_value(conds, k, e) == !gate_value(conds, n.target().index(), e),
            Gate::And(a) => gate_value(conds, k, e) == forall|i: int|
                0 <= i < a@.len() ==> #[trigger] gate_value(conds, a@[i].index(), e),
            Gate::Or(o) => gate_value(conds, k, e) == exists|i: int|
                0 <= i < o@.len() && #[trigger] gate_value(conds, o@[i].index(), e),
            _ => true,
        },
{
    match conds[k as int]->0 {
        Gate::And(a) => {
            lemma_all_deps_forall(conds, k, a@, a@.len(), e);
            if gate_value(conds, k, e) {
                assert forall|i: int| 0 <= i < a@.len() implies #[trigger] gate_value(conds, a@[i].index(), e) by {
                    assert(dep_value(conds, k, a@[i].index(), e));
                    assert(dep_live(conds, k, a@[i].index()));
                }
            }
            if forall|i: int| 0 <= i < a@.len() ==> #[trigger] gate_value(conds, a@[i].index(), e) {
                assert forall|i: int| 0 <= i < a@.len() implies #[trigger] dep_value(conds, k, a@[i].index(), e) by {
                    assert(dep_live(conds, k, a@[i].index()));
                    assert(gate_value(conds, a@[i].index(), e));
                }
            }
        },
        Gate::Or(o) => {
            lemma_any_dep_exists(conds, k, o@, o@.len(), e);
            if gate_value(conds, k, e) {
                let i = choose|i: int| 0 <= i < o@.len() && #[trigger] dep_value(conds, k, o@[i].index(), e);
                assert(gate_value(conds, o@[i].index(), e));
            }
            if exists|i: int| 0 <= i < o@.len() && #[trigger] gate_value(conds, o@[i].index(), e) {
                let i = choose|i: int| 0 <= i < o@.len() && #[trigger] gate_value(conds, o@[i].index(), e);
                assert(dep_live(conds, k, o@[i].index()));
                assert(dep_value(conds, k, o@[i].index(), e));
            }
        },
        _ => {},
    }
}

/// A dependency that no longer resolves counts as false: it makes `Not`
/// and `And` false, and `Or` holds exactly when a resolving dependency
/// holds.
pub proof fn lemma_dangling_is_false(conds: Seq<Option<Gate>>, k: nat, e: FlatEvent)
    requires
        k < conds.len(),
        conds[k as int] is Some,
    ensures
        match conds[k as int]->0 {
            Gate::Not(n) => !dep_live(conds, k, n.target().index()) ==> !gate_value(conds, k, e),
            Gate::And(a) => (exists|i: int| 0 <= i < a@.len() && !dep_live(conds, k, #[trigger] a@[i].index()))
                ==> !gate_value(conds, k, e),
            Gate::Or(o) => gate_value(conds, k, e) == exists|i: int|
                0 <= i < o@.len() && dep_live(conds, k, #[trigger] o@[i].index()) && gate_value(
                    conds,
                    o@[i].index(),
                    e,
                ),
            _ => true,
        },
{
    match conds[k as int]->0 {
        Gate::And(a) => {
            lemma_all_deps_forall(conds, k, a@, a@.len(), e);
            if exists|i: int| 0 <= i < a@.len() && !dep_live(conds, k, #[trigger] a@[i].index()) {
                let i = choose|i: int| 0 <= i < a@.len() && !dep_live(conds, k, #[trigger] a@[i].index());
                assert(!dep_value(conds, k, a@[i].index(), e));
            }
        },
        Gate::Or(o) => {
            lemma_any_dep_exists(conds, k, o@, o@.len(), e);
            if gate_value(conds, k, e) {
                let i = choose|i: int| 0 <= i < o@.len() && #[trigger] dep_value(conds, k, o@[i].index(), e);
                assert(dep_live(conds, k, o@[i].index()));
            }
            if exists|i: int| 0 <= i < o@.len() && dep_live(conds, k, #[trigger] o@[i].index()) && gate_value(
                conds,
                o@[i].index(),
                e,
            ) {
                let i = choose|i: int| 0 <= i < o@.len() && dep_live(conds, k, #[trigger] o@[i].index())
                    && gate_value(conds, o@[i].index(), e);
                assert(dep_value(conds, k, o@[i].index(), e));
            }
        },
        _ => {},
    }
}

/// Whether evaluating slot `k` can reach slot `s`: `s` is `k`, or a slot
/// that some resolving dependency of `k` reaches.
pub open spec fn reaches(conds: Seq<Option<Gate>>, k: nat, s: nat) -> bool
    decreases k, 2nat, 0nat,
{
    if s == k {
        true
    } else if k >= conds.len() || conds[k as int] is None {
        false
    } else {
        match conds[k as int]->0 {
            Gate::Not(n) => dep_reaches(conds, k, n.target().index(), s),
            Gate::And(a) => deps_reach(conds, k, a@, a@.len(), s),
            Gate::Or(o) => deps_reach(conds, k, o@, o@.len(), s),
            _ => false,
        }
    }
}

/// Whether dependency `j` of slot `k` resolves and reaches slot `s`.
pub open spec fn dep_reaches(conds: Seq<Option<Gate>>, k: nat, j: nat, s: nat) -> bool
    decreases k, 0nat, 0nat,
{
    if dep_live(conds, k, j) {
        reaches(conds, j, s)
    } else {
        false
    }
}

/// Whether one of the first `n` of `deps` resolves and reaches slot `s`.
pub open spec fn deps_reach(conds: Seq<Option<Gate>>, k: nat, deps: Seq<ConditionHandle>, n: nat, s: nat) -> bool
    decreases k, 1nat, n,
{
    if n == 0 || n > deps.len() {
        false
    } else {
        deps_reach(conds, k, deps, (n - 1) as nat, s) || dep_reaches(conds, k, deps[n - 1].index(), s)
    }
}

/// How many of `deps`, counted from the front, an `And` visits when it
/// starts at `i`: up to and including the first that is false or does not
/// resolve.
pub open spec fn and_visits(conds: Seq<Option<Gate>>, k: nat, deps: Seq<ConditionHandle>, e: FlatEvent, i: nat) -> nat
    decreases deps.len() - i,
{
    if i >= deps.len() {
        deps.len()
    } else if !dep_value(conds, k, deps[i as int].index(), e) {
        i + 1
    } else {
        and_visits(conds, k, deps, e, i + 1)
    }
}

/// How many of `deps`, counted from the front, an `Or` visits when it
/// starts at `i`: up to and including the first that holds.
pub open spec fn or_visits(conds: Seq<Option<Gate>>, k: nat, deps: Seq<ConditionHandle>, e: FlatEvent, i: nat) -> nat
    decreases deps.len() - i,
{
    if i >= deps.len() {
        deps.len()
    } else if dep_value(conds, k, deps[i as int].index(), e) {
        i + 1
    } else {
        or_visits(conds, k, deps, e, i + 1)
    }
}

/// The slots whose caches a fresh evaluation of slot `k` for event `e` may
/// fill, when the caches below `k` hold the values for `e`: `k` itself and
/// what the visited dependencies reach. An `And` stops after its first
/// false dependency and an `Or` after its first true one, so later
/// dependencies are left alone unless an earlier one reaches them.
pub open spec fn touched(conds: Seq<Option<Gate>>, k: nat, e: FlatEvent, s: nat) -> bool {
    s == k || (k < conds.len() && conds[k as int] is Some && match conds[k as int]->0 {
        Gate::Not(n) => dep_reaches(conds, k, n.target().index(), s),
        Gate::And(a) => deps_reach(conds, k, a@, and_visits(conds, k, a@, e, 0), s),
        Gate::Or(o) => deps_reach(conds, k, o@, or_visits(conds, k, o@, e, 0), s),
        _ => false,
    })
}

proof fn lemma_reaches_below(conds: Seq<Option<Gate>>, k: nat, s: nat)
    requires
        reaches(conds, k, s),
    ensures
        s <= k,
    decreases k, 1nat, 0nat,
{
    if s != k {
        match conds[k as int]->0 {
            Gate::Not(n) => {
                lemma_reaches_below(conds, n.target().index(), s);
            },
            Gate::And(a) => {
                lemma_deps_reach_below(conds, k, a@, a@.len(), s);
            },
            Gate::Or(o) => {
                lemma_deps_reach_below(conds, k, o@, o@.len(), s);
            },
            _ => {},
        }
    }
}

proof fn lemma_deps_reach_below(conds: Seq<Option<Gate>>, k: nat, deps: Seq<ConditionHandle>, n: nat, s: nat)
    requires
        deps_reach(conds, k, deps, n, s),
    ensures
        s < k,
    decreases k, 0nat, n,
{
    if deps_reach(conds, k, deps, (n - 1) as nat, s) {
        lemma_deps_reach_below(conds, k, deps, (n - 1) as nat, s);
    } else {
        let j = deps[n - 1].index();
        assert(dep_reaches(conds, k, j, s));
        assert(dep_live(conds, k, j) && reaches(conds, j, s));
        lemma_reaches_below(conds, j, s);
    }
}

proof fn lemma_deps_reach_grows(conds: Seq<Option<Gate>>, k: nat, deps: Seq<ConditionHandle>, i: nat, n: nat, s: nat)
    requires
        i <= n <= deps.len(),
        deps_reach(conds, k, deps, i, s),
    ensures
        deps_reach(conds, k, deps, n, s),
    decreases n - i,
{
    if i < n {
        lemma_deps_reach_grows(conds, k, deps, i, (n - 1) as nat, s);
    }
}

/// What evaluating a slot involves, read before any cache is touched.
enum Shape {
    Value(bool),
    Negation(usize),
    Conjunction(usize),
    Disjunction(usize),
}

/// Owns the conditions and binds names to them.
///
/// Conditions sit in slots that are never reused. Rebinding or removing a
/// name empties its slot, so handles to the old condition stop resolving;
/// they are not redirected to the new binding.
pub struct ConditionDictionary {
    conds: Vec<Option<Gate>>,
    caches: Vec<Option<bool>>,
    names: Vec<String>,
    slots: Vec<usize>,
}

impl ConditionDictionary {
    /// The slots: the condition each holds, or `None` once destroyed.
    pub closed spec fn view(&self) -> Seq<Option<Gate>> {
        self.conds@
    }

    /// The cached value of each slot.
    pub closed spec fn cache(&self) -> Seq<Option<bool>> {
        self.caches@
    }

    /// The slot bound to `name`, if any.
    pub closed spec fn binding(&self, name: Seq<char>) -> Option<nat> {
        if exists|i: int| 0 <= i < self.names@.len() && self.names@[i]@ == name {
            let i = choose|i: int| 0 <= i < self.names@.len() && self.names@[i]@ == name;
            Some(self.slots@[i] as nat)
        } else {
            None
        }
    }

    pub closed spec fn wf(&self) -> bool {
        &&& self.caches@.len() == self.conds@.len()
        &&& self.names@.len() == self.slots@.len()
        &&& forall|i: int|
            0 <= i < self.slots@.len() ==> (#[trigger] self.slots@[i] as int) < self.conds@.len()
                && self.conds@[self.slots@[i] as int] is Some
        &&& forall|i: int, j: int|
            0 <= i < self.names@.len() && 0 <= j < self.names@.len() && i != j
                ==> #[trigger] self.names@[i]@ != #[trigger] self.names@[j]@
        &&& forall|i: int, j: int|
            0 <= i < self.slots@.len() && 0 <= j < self.slots@.len() && i != j
                ==> #[trigger] self.slots@[i] != #[trigger] self.slots@[j]
    }

    /// Every cached value is the value of its slot for `e`.
    pub open spec fn caches_valid(&self, e: FlatEvent) -> bool {
        forall|i: int|
            0 <= i < self.cache().len() && (#[trigger] self.cache()[i]) is Some
                ==> self.cache()[i] == Some(gate_value(self@, i as nat, e))
    }

    /// Every full cache of a slot below `n` holds that slot's value for `e`.
    pub open spec fn caches_valid_below(&self, e: FlatEvent, n: int) -> bool {
        forall|i: int|
            0 <= i < n && i < self.cache().len() && (#[trigger] self.cache()[i]) is Some
                ==> self.cache()[i] == Some(gate_value(self@, i as nat, e))
    }

    pub fn new() -> (r: ConditionDictionary)
        ensures
            r.wf(),
            r@.len() == 0,
            forall|name: Seq<char>| r.binding(name) is None,
    {
        ConditionDictionary { conds: Vec::new(), caches: Vec::new(), names: Vec::new(), slots: Vec::new() }
    }

    fn position(&self, name: &str) -> (r: Option<usize>)
        requires
            self.wf(),
        ensures
            r is Some <==> self.binding(name@) is Some,
            r matches Some(i) ==> i < self.names@.len() && self.names@[i as int]@ == name@
                && self.binding(name@) == Some(self.slots@[i as int] as nat),
    {
        let key = name.to_owned();
        let mut i: usize = 0;
        while i < self.names.len()
            invariant
                self.wf(),
                i <= self.names@.len(),
                key@ == name@,
                forall|k: int| 0 <= k < i ==> self.names@[k]@ != name@,
            decreases self.names.len() - i,
        {
            if self.names[i] == key {
                assert(self.binding(name@) == Some(self.slots@[i as int] as nat)) by {
                    let c = choose|c: int| 0 <= c < self.names@.len() && self.names@[c]@ == name@;
                    assert(c == i);
                }
                return Some(i);
            }
            i += 1;
        }
        None
    }

    /// The names that are bound, each once.
    pub fn names(&self) -> (r: Vec<String>)
        requires
            self.wf(),
        ensures
            forall|i: int| 0 <= i < r@.len() ==> self.binding(#[trigger] r@[i]@) is Some,
            forall|n: Seq<char>| self.binding(n) is Some ==> exists|i: int| 0 <= i < r@.len() && r@[i]@ == n,
    {
        let mut r: Vec<String> = Vec::new();
        let mut i: usize = 0;
        while i < self.names.len()
            invariant
                self.wf(),
                i <= self.names@.len(),
                r@.len() == i,
                forall|k: int| 0 <= k < i ==> (#[trigger] r@[k])@ == self.names@[k]@,
            decreases self.names.len() - i,
        {
            r.push(self.names[i].clone());
            i += 1;
        }
        assert forall|k: int| 0 <= k < r@.len() implies self.binding(#[trigger] r@[k]@) is Some by {
            assert(self.names@[k]@ == r@[k]@);
        }
        assert forall|n: Seq<char>| self.binding(n) is Some implies exists|k: int| 0 <= k < r@.len() && r@[k]@ == n by {
            let c = choose|c: int| 0 <= c < self.names@.len() && self.names@[c]@ == n;
            assert(r@[c]@ == n);
        }
        r
    }

    /// A handle to the condition bound to `name`.
    pub fn lookup(&self, name: &str) -> (r: Option<ConditionHandle>)
        requires
            self.wf(),
        ensures
            r is Some <==> self.binding(name@) is Some,
            r matches Some(h) ==> self.binding(name@) == Some(h.index()) && h.index() < self@.len()
                && self@[h.index() as int] is Some,
    {
        match self.position(name) {
            Some(i) => Some(ConditionHandle { slot: self.slots[i] }),
            None => None,
        }
    }

    /// Binds `name` to `cond` in a new slot. A condition previously bound to
    /// the name is destroyed and handed back; handles to it stop resolving.
    pub fn insert(&mut self, name: String, cond: Gate) -> (r: Option<Gate>)
        requires
            old(self).wf(),
        ensures
            final(self).wf(),
            r is Some <==> old(self).binding(name@) is Some,
            r == match old(self).binding(name@) {
                Some(s) => old(self)@[s as int],
                None => None,
            },
            final(self).binding(name@) == Some(old(self)@.len()),
            final(self)@.len() == old(self)@.len() + 1,
            final(self)@.last() == Some(cond),
            forall|n: Seq<char>| n != name@ ==> final(self).binding(n) == old(self).binding(n),
            forall|i: int|
                0 <= i < old(self)@.len() ==> #[trigger] final(self)@[i] == if old(self).binding(name@)
                    == Some(i as nat) {
                    None
                } else {
                    old(self)@[i]
                },
            final(self).cache() == old(self).cache().push(None).update(
                match old(self).binding(name@) {
                    Some(s) => s as int,
                    None => old(self)@.len() as int,
                },
                None,
            ),
    {
        let slot = self.conds.len();
        let previous = self.destroy(&name);
        let ghost gname = name@;
        let ghost mid_names = self.names@;
        let ghost mid = *self;
        self.conds.push(Some(cond));
        self.caches.push(None);
        self.names.push(name);
        self.slots.push(slot);
        proof {
            let n = self.names@.len() - 1;
            assert(self.names@[n]@ == gname);
            assert(forall|i: int| 0 <= i < n ==> self.names@[i] == mid_names[i]);
            assert(self.binding(gname) == Some(slot as nat)) by {
                let c = choose|c: int| 0 <= c < self.names@.len() && self.names@[c]@ == gname;
                assert(c == n);
            }
            assert forall|m: Seq<char>| m != gname implies self.binding(m) == mid.binding(m) by {
                if exists|i: int| 0 <= i < mid_names.len() && mid_names[i]@ == m {
                    let d = choose|d: int| 0 <= d < mid_names.len() && mid_names[d]@ == m;
                    assert(self.names@[d]@ == m);
                    let c = choose|c: int| 0 <= c < self.names@.len() && self.names@[c]@ == m;
                    assert(c != n);
                } else if exists|i: int| 0 <= i < self.names@.len() && self.names@[i]@ == m {
                    let c = choose|c: int| 0 <= c < self.names@.len() && self.names@[c]@ == m;
                    assert(c != n);
                    assert(mid_names[c]@ == m);
                }
            }
        }
        previous
    }

    /// Unbinds `name` and destroys its condition, which is handed back.
    /// Handles to it stop resolving.
    pub fn remove(&mut self, name: &str) -> (r: Option<Gate>)
        requires
            old(self).wf(),
        ensures
            final(self).wf(),
            r is Some <==> old(self).binding(name@) is Some,
            r == match old(self).binding(name@) {
                Some(s) => old(self)@[s as int],
                None => None,
            },
            final(self).binding(name@) is None,
            final(self)@.len() == old(self)@.len(),
            forall|n: Seq<char>| n != name@ ==> final(self).binding(n) == old(self).binding(n),
            forall|i: int|
                0 <= i < old(self)@.len() ==> #[trigger] final(self)@[i] == if old(self).binding(name@)
                    == Some(i as nat) {
                    None
                } else {
                    old(self)@[i]
                },
            final(self).cache() == match old(self).binding(name@) {
                Some(s) => old(self).cache().update(s as int, None),
                None => old(self).cache(),
            },
    {
        let key = name.to_owned();
        self.destroy(&key)
    }

    /// Empties the slot bound to `name` and drops the binding.
    fn destroy(&mut self, name: &String) -> (r: Option<Gate>)
        requires
            old(self).wf(),
        ensures
            final(self).wf(),
            r is Some <==> old(self).binding(name@) is Some,
            r == match old(self).binding(name@) {
                Some(s) => old(self)@[s as int],
                None => None,
            },
            final(self).binding(name@) is None,
            forall|i: int| 0 <= i < final(self).names@.len() ==> #[trigger] final(self).names@[i]@ != name@,
            final(self)@.len() == old(self)@.len(),
            forall|n: Seq<char>| n != name@ ==> final(self).binding(n) == old(self).binding(n),
            forall|i: int|
                0 <= i < old(self)@.len() ==> #[trigger] final(self)@[i] == if old(self).binding(name@)
                    == Some(i as nat) {
                    None
                } else {
                    old(self)@[i]
                },
            final(self).cache() == match old(self).binding(name@) {
                Some(s) => old(self).cache().update(s as int, None),
                None => old(self).cache(),
            },
    {
        match self.position(name.as_str()) {
            None => {
                assert forall|i: int| 0 <= i < self.names@.len() implies #[trigger] self.names@[i]@ != name@ by {
                    if self.names@[i]@ == name@ {
                        assert(self.binding(name@) is Some);
                    }
                }
                None
            },
            Some(p) => {
                let s = self.slots[p];
                let ghost old_names = self.names@;
                let ghost old_slots = self.slots@;
                let old_cond = self.conds.remove(s);
                self.conds.insert(s, None);
                self.caches.set(s, None);
                self.names.remove(p);
                self.slots.remove(p);
                proof {
                    assert forall|i: int| 0 <= i < self.names@.len() implies #[trigger] self.names@[i]@ != name@ by {
                        let oi = if i < p { i } else { i + 1 };
                        assert(self.names@[i] == old_names[oi]);
                    }
                    assert forall|i: int|
                        0 <= i < self.slots@.len() implies (#[trigger] self.slots@[i] as int) < self.conds@.len()
                            && self.conds@[self.slots@[i] as int] is Some by {
                        let oi = if i < p { i } else { i + 1 };
                        assert(self.slots@[i] == old_slots[oi]);
                        assert(old_names[oi]@ != old_names[p as int]@);
                        assert(old_slots[oi] != old_slots[p as int]);
                    }
                    assert forall|m: Seq<char>| m != name@ implies self.binding(m) == old(self).binding(m) by {
                        if exists|i: int| 0 <= i < old_names.len() && old_names[i]@ == m {
                            let d = choose|d: int| 0 <= d < old_names.len() && old_names[d]@ == m;
                            let nd = if d < p { d } else { d - 1 };
                            assert(self.names@[nd] == old_names[d]);
                            let c = choose|c: int| 0 <= c < self.names@.len() && self.names@[c]@ == m;
                            let oc = if c < p { c } else { c + 1 };
                            assert(self.names@[c] == old_names[oc]);
                        } else {
                            if exists|i: int| 0 <= i < self.names@.len() && self.names@[i]@ == m {
                                let c = choose|c: int| 0 <= c < self.names@.len() && self.names@[c]@ == m;
                                let oc = if c < p { c } else { c + 1 };
                                assert(self.names@[c] == old_names[oc]);
                            }
                        }
                    }
                    assert(self.caches@ == old(self).caches@.update(s as int, None));
                }
                old_cond
            },
        }
    }

    /// Whether the handle still resolves.
    pub fn is_live(&self, h: &ConditionHandle) -> (r: bool)
        ensures
            r == (h.index() < self@.len() && self@[h.index() as int] is Some),
    {
        h.slot < self.conds.len() && self.conds[h.slot].is_some()
    }

    /// The cached value of the condition, `None` where the cache is empty or
    /// the handle does not resolve.
    pub fn get_cached_value(&self, h: &ConditionHandle) -> (r: Option<bool>)
        requires
            self.wf(),
        ensures
            r == if h.index() < self@.len() && self@[h.index() as int] is Some {
                self.cache()[h.index() as int]
            } else {
                None
            },
    {
        if h.slot < self.conds.len() && self.conds[h.slot].is_some() {
            self.caches[h.slot]
        } else {
            None
        }
    }

    /// Empties the cache of one condition.
    pub fn invalidate_cache(&mut self, h: &ConditionHandle)
        requires
            old(self).wf(),
        ensures
            final(self).wf(),
            final(self)@ == old(self)@,
            forall|n: Seq<char>| final(self).binding(n) == old(self).binding(n),
            final(self).cache() == if h.index() < old(self)@.len() {
                old(self).cache().update(h.index() as int, None)
            } else {
                old(self).cache()
            },
    {
        if h.slot < self.caches.len() {
            self.caches.set(h.slot, None);
        }
    }

    /// Empties every cache; done at each event boundary.
    pub fn invalidate_all(&mut self)
        requires
            old(self).wf(),
        ensures
            final(self).wf(),
            final(self)@ == old(self)@,
            forall|n: Seq<char>| final(self).binding(n) == old(self).binding(n),
            final(self).cache().len() == old(self).cache().len(),
            forall|i: int| 0 <= i < final(self).cache().len() ==> (#[trigger] final(self).cache()[i]) is None,
            forall|e: FlatEvent| #[trigger] final(self).caches_valid(e),
    {
        let mut i: usize = 0;
        while i < self.caches.len()
            invariant
                self.wf(),
                self.conds@ == old(self).conds@,
                self.names@ == old(self).names@,
                self.slots@ == old(self).slots@,
                self.caches@.len() == old(self).caches@.len(),
                i <= self.caches@.len(),
                forall|j: int| 0 <= j < i ==> (#[trigger] self.caches@[j]) is None,
            decreases self.caches.len() - i,
        {
            self.caches.set(i, None);
            i += 1;
        }
    }

    /// How slot `k` is evaluated; primitives are evaluated here.
    fn shape(&self, k: usize, e: &FlatEvent) -> (r: Shape)
        requires
            self.wf(),
            k < self@.len(),
            self@[k as int] is Some,
        ensures
            match r {
                Shape::Value(b) => b == gate_value(self@, k as nat, *e),
                Shape::Negation(j) => self@[k as int]->0 matches Gate::Not(g) && j == g.target().index(),
                Shape::Conjunction(n) => self@[k as int]->0 matches Gate::And(g) && n == g@.len(),
                Shape::Disjunction(n) => self@[k as int]->0 matches Gate::Or(g) && n == g@.len(),
            },
    {
        match &self.conds[k] {
            Some(Gate::True(t)) => Shape::Value(t.evaluate(e)),
            Some(Gate::False(f)) => Shape::Value(f.evaluate(e)),
            Some(Gate::Cut(c)) => Shape::Value(c.evaluate(e)),
            Some(Gate::Contour(c)) => Shape::Value(c.evaluate(e)),
            Some(Gate::Not(g)) => Shape::Negation(g.get_dependent().slot),
            Some(Gate::And(g)) => Shape::Conjunction(g.len()),
            Some(Gate::Or(g)) => Shape::Disjunction(g.len()),
            None => Shape::Value(false),
        }
    }

    /// Slot of dependency `i` of the `And` or `Or` in slot `k`.
    fn dep_slot(&self, k: usize, i: usize) -> (r: usize)
        requires
            k < self@.len(),
            match self@[k as int] {
                Some(Gate::And(g)) => i < g@.len(),
                Some(Gate::Or(g)) => i < g@.len(),
                _ => false,
            },
        ensures
            match self@[k as int] {
                Some(Gate::And(g)) => r == g@[i as int].index(),
                Some(Gate::Or(g)) => r == g@[i as int].index(),
                _ => false,
            },
    {
        match &self.conds[k] {
            Some(Gate::And(g)) => g.get(i).slot,
            Some(Gate::Or(g)) => g.get(i).slot,
            _ => 0,
        }
    }

    /// The value of slot `k`: its cache if full, else evaluated.
    fn check_slot(&mut self, k: usize, e: &FlatEvent) -> (r: bool)
        requires
            old(self).wf(),
            k < old(self)@.len(),
            old(self)@[k as int] is Some,
        ensures
            final(self).wf(),
            final(self)@ == old(self)@,
            final(self).names@ == old(self).names@,
            final(self).slots@ == old(self).slots@,
            final(self).cache().len() == old(self).cache().len(),
            forall|s: int|
                0 <= s < old(self).cache().len() && #[trigger] final(self).cache()[s] != old(self).cache()[s]
                    ==> s <= k && reaches(old(self)@, k as nat, s as nat),
            old(self).caches_valid_below(*e, k + 1) ==> final(self).caches_valid_below(*e, k + 1) && r
                == gate_value(old(self)@, k as nat, *e),
            old(self).cache()[k as int] matches Some(b) ==> r == b && final(self).cache() == old(self).cache(),
            old(self).cache()[k as int] is None && old(self).caches_valid_below(*e, k as int) ==> (forall|s: int|
                0 <= s < old(self).cache().len() && #[trigger] final(self).cache()[s] != old(self).cache()[s]
                    ==> touched(old(self)@, k as nat, *e, s as nat)),
            final(self).cache()[k as int] == Some(r),
        decreases k, 1nat,
    {
        if let Some(b) = self.caches[k] {
            return b;
        }
        self.evaluate_slot(k, e)
    }

    /// Evaluates slot `k` afresh, ignoring its own cache and reading its
    /// dependencies through theirs, and caches the result.
    fn evaluate_slot(&mut self, k: usize, e: &FlatEvent) -> (r: bool)
        requires
            old(self).wf(),
            k < old(self)@.len(),
            old(self)@[k as int] is Some,
        ensures
            final(self).wf(),
            final(self)@ == old(self)@,
            final(self).names@ == old(self).names@,
            final(self).slots@ == old(self).slots@,
            final(self).cache().len() == old(self).cache().len(),
            final(self).cache()[k as int] == Some(r),
            forall|s: int|
                0 <= s < old(self).cache().len() && #[trigger] final(self).cache()[s] != old(self).cache()[s]
                    ==> s <= k && reaches(old(self)@, k as nat, s as nat),
            old(self).caches_valid_below(*e, k as int) ==> {
                &&& r == gate_value(old(self)@, k as nat, *e)
                &&& final(self).caches_valid_below(*e, k + 1)
                &&& forall|s: int|
                    0 <= s < old(self).cache().len() && #[trigger] final(self).cache()[s] != old(self).cache()[s]
                        ==> touched(old(self)@, k as nat, *e, s as nat)
            },
        decreases k, 0nat,
    {
        let ghost vb = old(self).caches_valid_below(*e, k as int);
        let ghost conds = self@;
        let ghost c0 = self.cache();
        let result = match self.shape(k, e) {
            Shape::Value(b) => b,
            Shape::Negation(j) => {
                if j < k && self.conds[j].is_some() {
                    let r = self.check_slot(j, e);
                    proof {
                        assert forall|s: int|
                            0 <= s < c0.len() && #[trigger] self.cache()[s] != c0[s] implies s <= j
                            && dep_reaches(conds, k as nat, j as nat, s as nat) by {}
                        if vb {
                            assert(old(self).caches_valid_below(*e, j + 1));
                            assert forall|i: int|
                                0 <= i < k && i < self.cache().len() && (#[trigger] self.cache()[i]) is Some implies self.cache()[i]
                                == Some(gate_value(conds, i as nat, *e)) by {
                                if self.cache()[i] == c0[i] {
                                    assert(c0[i] is Some);
                                }
                            }
                        }
                    }
                    !r
                } else {
                    false
                }
            },
            Shape::Conjunction(n) => {
                let ghost deps = match conds[k as int] {
                    Some(Gate::And(g)) => g@,
                    _ => Seq::empty(),
                };
                let mut result = true;
                let mut i: usize = 0;
                while i < n && result
                    invariant
                        self.wf(),
                        self@ == conds,
                        self.names@ == old(self).names@,
                        self.slots@ == old(self).slots@,
                        self.cache().len() == c0.len(),
                        c0 == old(self).cache(),
                        k < conds.len(),
                        conds[k as int] matches Some(Gate::And(g)) && deps == g@,
                        n == deps.len(),
                        i <= n,
                        forall|s: int|
                            0 <= s < c0.len() && #[trigger] self.cache()[s] != c0[s] ==> deps_reach(
                                conds,
                                k as nat,
                                deps,
                                i as nat,
                                s as nat,
                            ),
                        vb ==> self.caches_valid_below(*e, k as int),
                        vb ==> result == all_deps(conds, k as nat, deps, i as nat, *e),
                        vb ==> (if result {
                            and_visits(conds, k as nat, deps, *e, 0) == and_visits(conds, k as nat, deps, *e, i as nat)
                        } else {
                            and_visits(conds, k as nat, deps, *e, 0) == i
                        }),
                    decreases n - i,
                {
                    let j = self.dep_slot(k, i);
                    let ghost before = self.cache();
                    if j < k && self.conds[j].is_some() {
                        result = self.check_slot(j, e);
                    } else {
                        result = false;
                    }
                    proof {
                        let jj = deps[i as int].index();
                        assert(jj == j);
                        assert(all_deps(conds, k as nat, deps, (i + 1) as nat, *e) == (all_deps(
                            conds,
                            k as nat,
                            deps,
                            i as nat,
                            *e,
                        ) && dep_value(conds, k as nat, jj, *e)));
                        assert(and_visits(conds, k as nat, deps, *e, i as nat) == if !dep_value(conds, k as nat, jj, *e) {
                            (i + 1) as nat
                        } else {
                            and_visits(conds, k as nat, deps, *e, (i + 1) as nat)
                        });
                        assert forall|s: int|
                            0 <= s < c0.len() && #[trigger] self.cache()[s] != c0[s] implies deps_reach(
                            conds,
                            k as nat,
                            deps,
                            (i + 1) as nat,
                            s as nat,
                        ) by {
                            if self.cache()[s] != before[s] {
                                assert(dep_reaches(conds, k as nat, jj, s as nat));
                            } else {
                                assert(before[s] != c0[s]);
                            }
                        }
                        if vb {
                            assert forall|x: int|
                                0 <= x < k && x < self.cache().len() && (#[trigger] self.cache()[x]) is Some implies self.cache()[x]
                                == Some(gate_value(conds, x as nat, *e)) by {
                                if self.cache()[x] == before[x] {
                                    assert(before[x] is Some);
                                }
                            }
                        }
                    }
                    i += 1;
                }
                proof {
                    if vb && !result {
                        lemma_all_deps_forall(conds, k as nat, deps, i as nat, *e);
                        lemma_all_deps_forall(conds, k as nat, deps, n as nat, *e);
                    }
                    if vb && result {
                        assert(and_visits(conds, k as nat, deps, *e, n as nat) == n);
                    }
                    assert forall|s: int|
                        0 <= s < c0.len() && #[trigger] self.cache()[s] != c0[s] implies deps_reach(
                        conds,
                        k as nat,
                        deps,
                        n as nat,
                        s as nat,
                    ) by {
                        lemma_deps_reach_grows(conds, k as nat, deps, i as nat, n as nat, s as nat);
                    }
                }
                result
            },
            Shape::Disjunction(n) => {
                let ghost deps = match conds[k as int] {
                    Some(Gate::Or(g)) => g@,
                    _ => Seq::empty(),
                };
                let mut result = false;
                let mut i: usize = 0;
                while i < n && !result
                    invariant
                        self.wf(),
                        self@ == conds,
                        self.names@ == old(self).names@,
                        self.slots@ == old(self).slots@,
                        self.cache().len() == c0.len(),
                        c0 == old(self).cache(),
                        k < conds.len(),
                        conds[k as int] matches Some(Gate::Or(g)) && deps == g@,
                        n == deps.len(),
                        i <= n,
                        forall|s: int|
                            0 <= s < c0.len() && #[trigger] self.cache()[s] != c0[s] ==> deps_reach(
                                conds,
                                k as nat,
                                deps,
                                i as nat,
                                s as nat,
                            ),
                        vb ==> self.caches_valid_below(*e, k as int),
                        vb ==> result == any_dep(conds, k as nat, deps, i as nat, *e),
                        vb ==> (if !result {
                            or_visits(conds, k as nat, deps, *e, 0) == or_visits(conds, k as nat, deps, *e, i as nat)
                        } else {
                            or_visits(conds, k as nat, deps, *e, 0) == i
                        }),
                    decreases n - i,
                {
                    let j = self.dep_slot(k, i);
                    let ghost before = self.cache();
                    if j < k && self.conds[j].is_some() {
                        result = self.check_slot(j, e);
                    }
                    proof {
                        let jj = deps[i as int].index();
                        assert(jj == j);
                        assert(any_dep(conds, k as nat, deps, (i + 1) as nat, *e) == (any_dep(
                            conds,
                            k as nat,
                            deps,
                            i as nat,
                            *e,
                        ) || dep_value(conds, k as nat, jj, *e)));
                        assert(or_visits(conds, k as nat, deps, *e, i as nat) == if dep_value(conds, k as nat, jj, *e) {
                            (i + 1) as nat
                        } else {
                            or_visits(conds, k as nat, deps, *e, (i + 1) as nat)
                        });
                        assert forall|s: int|
                            0 <= s < c0.len() && #[trigger] self.cache()[s] != c0[s] implies deps_reach(
                            conds,
                            k as nat,
                            deps,
                            (i + 1) as nat,
                            s as nat,
                        ) by {
                            if self.cache()[s] != before[s] {
                                assert(dep_reaches(conds, k as nat, jj, s as nat));
                            } else {
                                assert(before[s] != c0[s]);
                            }
                        }
                        if vb {
                            assert forall|x: int|
                                0 <= x < k && x < self.cache().len() && (#[trigger] self.cache()[x]) is Some implies self.cache()[x]
                                == Some(gate_value(conds, x as nat, *e)) by {
                                if self.cache()[x] == before[x] {
                                    assert(before[x] is Some);
                                }
                            }
                        }
                    }
                    i += 1;
                }
                proof {
                    if vb && result {
                        lemma_any_dep_exists(conds, k as nat, deps, i as nat, *e);
                        lemma_any_dep_exists(conds, k as nat, deps, n as nat, *e);
                    }
                    if vb && !result {
                        assert(or_visits(conds, k as nat, deps, *e, n as nat) == n);
                    }
                    assert forall|s: int|
                        0 <= s < c0.len() && #[trigger] self.cache()[s] != c0[s] implies deps_reach(
                        conds,
                        k as nat,
                        deps,
                        n as nat,
                        s as nat,
                    ) by {
                        lemma_deps_reach_grows(conds, k as nat, deps, i as nat, n as nat, s as nat);
                    }
                }
                result
            },
        };
        let ghost mid = self.cache();
        self.caches.set(k, Some(result));
        proof {
            assert forall|s: int|
                0 <= s < c0.len() && #[trigger] self.cache()[s] != c0[s] implies s <= k && reaches(
                conds,
                k as nat,
                s as nat,
            ) by {
                if s != k {
                    assert(mid[s] != c0[s]);
                    assert(reaches(conds, k as nat, s as nat));
                    lemma_reaches_below(conds, k as nat, s as nat);
                }
            }
        }
        result
    }

    /// The value of the condition a handle refers to for the event being
    /// processed: its cached value if it has one, else a fresh evaluation,
    /// which fills the caches of the conditions it visits. A handle that no
    /// longer resolves gives false. The result stays cached, so until the
    /// caches are emptied every further check gives the same value. Only
    /// caches of slots that the condition reaches change, and of those only
    /// the ones that short-circuit evaluation visits.
    pub fn check(&mut self, h: &ConditionHandle, e: &FlatEvent) -> (r: bool)
        requires
            old(self).wf(),
        ensures
            final(self).wf(),
            final(self)@ == old(self)@,
            forall|n: Seq<char>| final(self).binding(n) == old(self).binding(n),
            final(self).cache().len() == old(self).cache().len(),
            old(self).caches_valid(*e) ==> final(self).caches_valid(*e) && r == handle_value(
                old(self)@,
                *h,
                *e,
            ),
            !(h.index() < old(self)@.len() && old(self)@[h.index() as int] is Some) ==> !r && *final(self)
                == *old(self),
            h.index() < old(self)@.len() && old(self)@[h.index() as int] is Some ==> (old(
                self,
            ).cache()[h.index() as int] matches Some(b) ==> r == b && final(self).cache() == old(self).cache()),
            h.index() < old(self)@.len() && old(self)@[h.index() as int] is Some ==> final(self).cache()[h.index() as int]
                == Some(r),
            forall|s: int|
                0 <= s < old(self).cache().len() && #[trigger] final(self).cache()[s] != old(self).cache()[s]
                    ==> reaches(old(self)@, h.index(), s as nat),
            h.index() < old(self)@.len() && old(self)@[h.index() as int] is Some && old(self).cache()[h.index() as int]
                is None && old(self).caches_valid_below(*e, h.index() as int) ==> {
                &&& r == gate_value(old(self)@, h.index(), *e)
                &&& forall|s: int|
                    0 <= s < old(self).cache().len() && #[trigger] final(self).cache()[s] != old(self).cache()[s]
                        ==> touched(old(self)@, h.index(), *e, s as nat)
            },
    {
        if h.slot < self.conds.len() && self.conds[h.slot].is_some() {
            let r = self.check_slot(h.slot, e);
            proof {
                let k = h.slot as int;
                if old(self).caches_valid(*e) {
                    assert(old(self).caches_valid_below(*e, k + 1));
                    assert forall|i: int|
                        0 <= i < self.cache().len() && (#[trigger] self.cache()[i]) is Some implies self.cache()[i]
                        == Some(gate_value(self@, i as nat, *e)) by {
                        if i > k {
                            assert(self.cache()[i] == old(self).cache()[i]);
                        }
                    }
                }
                if old(self).cache()[k] is None && old(self).caches_valid_below(*e, k) {
                    assert(old(self).caches_valid_below(*e, k + 1));
                }
            }
            r
        } else {
            false
        }
    }

    /// Evaluates the condition afresh, ignoring its own cache (which may be
    /// left over from an earlier event) but reading its dependencies through
    /// theirs, and caches the result. A handle that no longer resolves gives
    /// false.
    pub fn evaluate(&mut self, h: &ConditionHandle, e: &FlatEvent) -> (r: bool)
        requires
            old(self).wf(),
        ensures
            final(self).wf(),
            final(self)@ == old(self)@,
            forall|n: Seq<char>| final(self).binding(n) == old(self).binding(n),
            final(self).cache().len() == old(self).cache().len(),
            old(self).caches_valid(*e) ==> final(self).caches_valid(*e) && r == handle_value(
                old(self)@,
                *h,
                *e,
            ),
            !(h.index() < old(self)@.len() && old(self)@[h.index() as int] is Some) ==> !r && *final(self)
                == *old(self),
            h.index() < old(self)@.len() && old(self)@[h.index() as int] is Some ==> final(self).cache()[h.index() as int]
                == Some(r),
            forall|s: int|
                0 <= s < old(self).cache().len() && #[trigger] final(self).cache()[s] != old(self).cache()[s]
                    ==> reaches(old(self)@, h.index(), s as nat),
            h.index() < old(self)@.len() && old(self)@[h.index() as int] is Some && old(self).caches_valid_below(
                *e,
                h.index() as int,
            ) ==> {
                &&& r == handle_value(old(self)@, *h, *e)
                &&& final(self).caches_valid_below(*e, h.index() as int + 1)
                &&& forall|s: int|
                    0 <= s < old(self).cache().len() && #[trigger] final(self).cache()[s] != old(self).cache()[s]
                        ==> touched(old(self)@, h.index(), *e, s as nat)
            },
    {
        if h.slot < self.conds.len() && self.conds[h.slot].is_some() {
            let r = self.evaluate_slot(h.slot, e);
            proof {
                let k = h.slot as int;
                if old(self).caches_valid(*e) {
                    assert(old(self).caches_valid_below(*e, k + 1));
                    assert forall|i: int|
                        0 <= i < self.cache().len() && (#[trigger] self.cache()[i]) is Some implies self.cache()[i]
                        == Some(gate_value(self@, i as nat, *e)) by {
                        if i > k {
                            assert(self.cache()[i] == old(self).cache()[i]);
                        }
                    }
                }
            }
            r
        } else {
            false
        }
    }
}

} // verus!
