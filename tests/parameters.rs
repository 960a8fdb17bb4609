use rustogrammer::errors::{AnalysisError, ErrorKind};
use rustogrammer::parameters::{Event, EventParameter, FlatEvent, Parameter, ParameterDictionary};

#[test]
fn ids_count_up_from_one() {
    let mut pd = ParameterDictionary::new();
    assert_eq!(Ok(1), pd.add("a"));
    assert_eq!(Ok(2), pd.add("b"));
    assert_eq!(Err(AnalysisError::DuplicateName(String::from("a"))), pd.add("a"));
    assert_eq!(2, pd.len());
    assert_eq!(2, pd.lookup("b").unwrap().get_id());
    assert_eq!("a", pd.lookup_id(1).unwrap().get_name());
    assert!(pd.lookup_id(0).is_none());
    assert!(pd.lookup_id(3).is_none());
    assert!(pd.lookup("c").is_none());
}

#[test]
fn metadata_is_set_by_name() {
    let mut pd = ParameterDictionary::new();
    pd.add("a").unwrap();
    assert_eq!((None, None), pd.lookup("a").unwrap().get_limits());
    pd.set_limits("a", -3, 9).unwrap();
    pd.set_bins("a", 12).unwrap();
    pd.set_description("a", "energy").unwrap();
    let p = pd.lookup("a").unwrap();
    assert_eq!((Some(-3), Some(9)), p.get_limits());
    assert_eq!(Some(12), p.get_bins());
    assert_eq!(Some(String::from("energy")), p.get_description());
    let err = pd.set_bins("zz", 1).unwrap_err();
    assert_eq!(ErrorKind::UnknownParameter, err.kind());
    assert_eq!("zz", err.subject());

    let mut q = Parameter::new("q", 9);
    q.set_bins(4);
    assert_eq!(9, q.get_id());
    assert_eq!(Some(4), q.get_bins());
}

#[test]
fn flat_event_keeps_last_value() {
    let mut e = Event::new();
    e.push(EventParameter::new(2, 10));
    e.push(EventParameter::new(5, 20));
    e.push(EventParameter::new(2, 30));
    let mut fe = FlatEvent::new();
    fe.load_event(&e);
    assert_eq!(Some(30), fe.get(2));
    assert_eq!(Some(20), fe.get(5));
    assert_eq!(None, fe.get(1));
    assert_eq!(None, fe.get(1000));

    // Loading the next event forgets the previous one.
    let mut e2 = Event::new();
    e2.push(EventParameter::new(1, -4));
    fe.load_event(&e2);
    assert_eq!(Some(-4), fe.get(1));
    assert_eq!(None, fe.get(2));
    assert_eq!(None, fe.get(5));

    e2.clear();
    fe.load_event(&e2);
    assert_eq!(None, fe.get(1));
}
