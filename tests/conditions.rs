use rustogrammer::conditions::compound::{And, ConditionList, Not, Or};
use rustogrammer::conditions::{Condition, ConditionDictionary, Contour, Cut, False, Gate, True};
use rustogrammer::parameters::{Event, EventParameter, FlatEvent};

fn flat(pairs: &[(u32, i64)]) -> FlatEvent {
    let mut e = Event::new();
    for (id, v) in pairs {
        e.push(EventParameter::new(*id, *v));
    }
    let mut fe = FlatEvent::new();
    fe.load_event(&e);
    fe
}

#[test]
fn short_circuit_and_scenario() {
    let mut d = ConditionDictionary::new();
    d.insert(String::from("T"), Gate::True(True {}));
    d.insert(String::from("F"), Gate::False(False {}));
    let t = d.lookup("T").unwrap();
    let f = d.lookup("F").unwrap();
    let mut c = And::new();
    c.add_condition(&f);
    c.add_condition(&t);
    d.insert(String::from("C"), Gate::And(c));
    let ch = d.lookup("C").unwrap();

    let fe = flat(&[(1, 5)]);
    d.invalidate_all();
    assert!(!d.check(&ch, &fe));
    // F was evaluated and cached; T was never reached.
    assert_eq!(Some(false), d.get_cached_value(&f));
    assert_eq!(None, d.get_cached_value(&t));
    assert_eq!(Some(false), d.get_cached_value(&ch));
}

#[test]
fn dangling_weak_scenario() {
    let mut d = ConditionDictionary::new();
    d.insert(String::from("c"), Gate::True(True {}));
    let c = d.lookup("c").unwrap();
    d.insert(String::from("not"), Gate::Not(Not::new(&c)));
    let n = d.lookup("not").unwrap();
    let fe = flat(&[]);
    d.invalidate_all();
    assert!(!d.check(&n, &fe));

    let previous = d.insert(String::from("c"), Gate::False(False {}));
    assert!(previous.is_some());
    assert!(!d.is_live(&c));
    d.invalidate_all();
    // The handle still points at the destroyed condition: Not gives false.
    assert!(!d.check(&n, &fe));
    // The name itself now refers to the new condition.
    let c2 = d.lookup("c").unwrap();
    assert!(!d.check(&c2, &fe));
    assert!(!d.check(&c, &fe));
}

#[test]
fn compound_formulas() {
    let mut d = ConditionDictionary::new();
    d.insert(String::from("in"), Gate::Cut(Cut::new(1, 10, 20)));
    d.insert(String::from("hi"), Gate::Cut(Cut::new(2, 100, 200)));
    let a = d.lookup("in").unwrap();
    let b = d.lookup("hi").unwrap();
    let mut and = And::new();
    and.add_condition(&a);
    and.add_condition(&b);
    let mut or = Or::new();
    or.add_condition(&a);
    or.add_condition(&b);
    d.insert(String::from("and"), Gate::And(and));
    d.insert(String::from("or"), Gate::Or(or));
    d.insert(String::from("not"), Gate::Not(Not::new(&a)));
    let and = d.lookup("and").unwrap();
    let or = d.lookup("or").unwrap();
    let not = d.lookup("not").unwrap();

    for (x, y) in [(15, 150), (15, 50), (5, 150), (5, 50)] {
        let fe = flat(&[(1, x), (2, y)]);
        d.invalidate_all();
        let va = d.check(&a, &fe);
        let vb = d.check(&b, &fe);
        assert_eq!(va && vb, d.check(&and, &fe));
        assert_eq!(va || vb, d.check(&or, &fe));
        assert_eq!(!va, d.check(&not, &fe));
    }
}

#[test]
fn cached_value_is_kept_within_an_event() {
    let mut d = ConditionDictionary::new();
    d.insert(String::from("cut"), Gate::Cut(Cut::new(1, 0, 10)));
    let h = d.lookup("cut").unwrap();
    d.invalidate_all();
    let inside = flat(&[(1, 5)]);
    let outside = flat(&[(1, 50)]);
    assert!(d.check(&h, &inside));
    assert!(d.check(&h, &inside));
    assert_eq!(Some(true), d.get_cached_value(&h));
    // Without invalidation the cache answers, whatever the event.
    assert!(d.check(&h, &outside));
    d.invalidate_cache(&h);
    assert!(!d.check(&h, &outside));
    assert!(!d.evaluate(&h, &outside));
}

#[test]
fn removed_dependency_counts_as_false() {
    let mut d = ConditionDictionary::new();
    d.insert(String::from("t"), Gate::True(True {}));
    d.insert(String::from("u"), Gate::True(True {}));
    let t = d.lookup("t").unwrap();
    let u = d.lookup("u").unwrap();
    let mut and = And::new();
    and.add_condition(&t);
    and.add_condition(&u);
    let mut or = Or::new();
    or.add_condition(&t);
    or.add_condition(&u);
    d.insert(String::from("and"), Gate::And(and));
    d.insert(String::from("or"), Gate::Or(or));
    let and = d.lookup("and").unwrap();
    let or = d.lookup("or").unwrap();
    let fe = flat(&[]);
    d.invalidate_all();
    assert!(d.check(&and, &fe));
    assert!(d.check(&or, &fe));

    assert!(d.remove("t").is_some());
    assert!(d.lookup("t").is_none());
    d.invalidate_all();
    assert!(!d.check(&and, &fe));
    assert!(d.check(&or, &fe));
    assert!(d.remove("u").is_some());
    d.invalidate_all();
    assert!(!d.check(&or, &fe));
    assert!(d.remove("u").is_none());
}

#[test]
fn primitives_evaluate() {
    let fe = flat(&[(3, 7)]);
    assert!(True {}.evaluate(&fe));
    assert!(!False {}.evaluate(&fe));
    assert!(Cut::new(3, 7, 7).evaluate(&fe));
    assert!(Cut::new(3, 0, 7).evaluate(&fe));
    assert!(!Cut::new(3, 8, 9).evaluate(&fe));
    assert!(!Cut::new(4, 0, 100).evaluate(&fe));
}

#[test]
fn lists_grow_and_clear() {
    let mut d = ConditionDictionary::new();
    d.insert(String::from("t"), Gate::True(True {}));
    let t = d.lookup("t").unwrap();
    let mut l = ConditionList::new();
    l.add_condition(&t);
    l.add_condition(&t);
    assert_eq!(2, l.len());
    assert_eq!(t, l.get(1));
    l.clear();
    assert_eq!(0, l.len());
    let mut a = And::new();
    a.add_condition(&t);
    a.clear();
    assert_eq!(0, a.len());
    // An empty And holds, an empty Or does not.
    d.insert(String::from("and"), Gate::And(a));
    d.insert(String::from("or"), Gate::Or(Or::new()));
    let and = d.lookup("and").unwrap();
    let or = d.lookup("or").unwrap();
    let fe = flat(&[]);
    d.invalidate_all();
    assert!(d.check(&and, &fe));
    assert!(!d.check(&or, &fe));
}

fn square() -> Contour {
    Contour::new(1, 2, vec![(0, 0), (10, 0), (10, 10), (0, 10)])
}

#[test]
fn contour_edges_follow_even_odd_rule() {
    let c = square();
    assert!(c.inside(5, 5));
    assert!(c.inside(0, 5));
    assert!(!c.inside(10, 5));
    assert!(c.inside(5, 0));
    assert!(!c.inside(5, 10));
    assert!(!c.inside(-1, 5));
    assert!(!c.inside(11, 5));
    assert!(!c.inside(5, -1));
    assert!(!c.inside(i64::MAX, i64::MIN));
    assert!(!c.inside(i64::MIN, 5));
}

#[test]
fn contour_handles_extreme_coordinates() {
    let big = Contour::new(1, 2, vec![(i64::MIN, i64::MIN), (i64::MAX, i64::MIN), (0, i64::MAX)]);
    assert!(big.inside(0, 0));
    assert!(!big.inside(i64::MAX, 0));
    assert!(!big.inside(i64::MIN, i64::MAX - 1));
    // A concave polygon: a U shape open at the top.
    let u = Contour::new(1, 2, vec![(0, 0), (30, 0), (30, 30), (20, 30), (20, 10), (10, 10), (10, 30), (0, 30)]);
    assert!(u.inside(5, 20));
    assert!(u.inside(25, 20));
    assert!(!u.inside(15, 20));
    assert!(u.inside(15, 5));
}

#[test]
fn contour_condition_needs_both_parameters() {
    let mut d = ConditionDictionary::new();
    d.insert(String::from("sq"), Gate::Contour(square()));
    let h = d.lookup("sq").unwrap();
    d.invalidate_all();
    assert!(d.check(&h, &flat(&[(1, 3), (2, 4)])));
    d.invalidate_all();
    assert!(!d.check(&h, &flat(&[(1, 3)])));
    assert!(square().evaluate(&flat(&[(1, 9), (2, 9)])));
    assert!(!square().evaluate(&flat(&[(2, 9)])));
}

#[test]
fn names_lists_each_binding_once() {
    let mut d = ConditionDictionary::new();
    d.insert(String::from("a"), Gate::True(True {}));
    d.insert(String::from("b"), Gate::False(False {}));
    d.insert(String::from("a"), Gate::False(False {}));
    let mut names = d.names();
    names.sort();
    assert_eq!(vec![String::from("a"), String::from("b")], names);
    d.remove("a");
    assert_eq!(vec![String::from("b")], d.names());
}

#[test]
fn or_stops_at_first_true_dependency() {
    let mut d = ConditionDictionary::new();
    d.insert(String::from("t"), Gate::True(True {}));
    d.insert(String::from("f"), Gate::False(False {}));
    let t = d.lookup("t").unwrap();
    let f = d.lookup("f").unwrap();
    let mut or = Or::new();
    or.add_condition(&t);
    or.add_condition(&f);
    d.insert(String::from("or"), Gate::Or(or));
    let h = d.lookup("or").unwrap();
    d.invalidate_all();
    assert!(d.check(&h, &flat(&[])));
    assert_eq!(Some(true), d.get_cached_value(&t));
    assert_eq!(None, d.get_cached_value(&f));
}

#[test]
fn evaluate_ignores_stale_own_cache() {
    let mut d = ConditionDictionary::new();
    d.insert(String::from("cut"), Gate::Cut(Cut::new(1, 0, 10)));
    let c = d.lookup("cut").unwrap();
    d.insert(String::from("not"), Gate::Not(Not::new(&c)));
    let n = d.lookup("not").unwrap();
    d.invalidate_all();
    assert!(!d.check(&n, &flat(&[(1, 5)])));
    // Next event: only the dependency's cache is emptied; the Not keeps
    // its stale value, which evaluate does not read.
    d.invalidate_cache(&c);
    assert!(d.evaluate(&n, &flat(&[(1, 50)])));
    assert_eq!(Some(true), d.get_cached_value(&n));
}

#[test]
fn insert_hands_back_the_replaced_condition() {
    let mut d = ConditionDictionary::new();
    assert!(d.insert(String::from("c"), Gate::True(True {})).is_none());
    let previous = d.insert(String::from("c"), Gate::False(False {}));
    assert!(matches!(previous, Some(Gate::True(_))));
    assert!(matches!(d.remove("c"), Some(Gate::False(_))));
}
