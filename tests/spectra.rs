use rustogrammer::conditions::{ConditionDictionary, False, Gate, True};
use rustogrammer::errors::AnalysisError;
use rustogrammer::parameters::{Event, EventParameter, FlatEvent, ParameterDictionary};
use rustogrammer::spectra::dictionary::{Spectrum, SpectrumDictionary};
use rustogrammer::spectra::pgamma::PGamma;
use rustogrammer::spectra::simple::{OneD, TwoD};
use rustogrammer::spectra::summary::Summary;
use rustogrammer::spectra::{Axis, Histogram2D};

fn make_params(n: usize, lh: Option<(i64, i64)>, bins: Option<u32>) -> ParameterDictionary {
    let mut dict = ParameterDictionary::new();
    for i in 0..n {
        let name = format!("param.{}", i);
        dict.add(&name)
            .expect(&format!("Failed to add parameter {}", name));
        if let Some((low, high)) = lh {
            dict.set_limits(&name, low, high).unwrap();
        }
        if let Some(b) = bins {
            dict.set_bins(&name, b).unwrap();
        }
    }
    dict
}

fn names(range: std::ops::Range<usize>) -> Vec<String> {
    range.map(|i| format!("param.{}", i)).collect()
}

fn total_2d(h: &Histogram2D) -> u64 {
    let mut sum = 0;
    for ix in 0..h.x_axis().num_bins() {
        for iy in 0..h.y_axis().num_bins() {
            sum += h.get(ix, iy);
        }
    }
    sum
}

fn full_event(dict: &ParameterDictionary, all_names: &[String]) -> FlatEvent {
    let mut e = Event::new();
    for (i, n) in all_names.iter().enumerate() {
        let value = i as i64 * 10;
        let p = dict.lookup(n).unwrap();
        e.push(EventParameter::new(p.get_id(), value));
    }
    let mut fe = FlatEvent::new();
    fe.load_event(&e);
    fe
}

#[test]
fn pgamma_new_1() {
    let dict = make_params(10, Some((0, 1024)), Some(1024));
    let xp = names(0..5);
    let yp = names(5..10);

    let result = PGamma::new("test", &xp, &yp, &dict, None, None, None, None, None, None);
    assert!(result.is_ok());
    let spec = result.unwrap();

    assert!(spec.get_gate().gate_name().is_none());
    assert_eq!(String::from("test"), spec.get_name());

    for (i, xp) in spec.get_x_params().iter().enumerate() {
        let name = format!("param.{}", i);
        assert_eq!(name, xp.name);
        assert_eq!(dict.lookup(&name).unwrap().get_id(), xp.id);
    }
    for (i, yp) in spec.get_y_params().iter().enumerate() {
        let ii = i + 5;
        let name = format!("param.{}", ii);
        assert_eq!(name, yp.name);
        assert_eq!(dict.lookup(&name).unwrap().get_id(), yp.id);
    }
    let x = spec.get_histogram_2d().x_axis();
    let y = spec.get_histogram_2d().y_axis();

    assert_eq!(0, x.low());
    assert_eq!(1024, x.high());
    assert_eq!(1024 + 2, x.num_bins());

    assert_eq!(0, y.low());
    assert_eq!(1024, y.high());
    assert_eq!(1024 + 2, y.num_bins());
}

#[test]
fn pgamma_new_2() {
    let dict = make_params(10, Some((0, 1024)), Some(1024));
    let xp = names(0..5);
    let mut yp = names(5..10);
    yp.push(String::from("Param.10"));

    let result = PGamma::new("test", &xp, &yp, &dict, None, None, None, None, None, None);
    assert!(result.is_err());

    let mut xp = names(0..5);
    xp.push(String::from("Param.10"));
    let yp = names(5..10);
    let result = PGamma::new("test", &xp, &yp, &dict, None, None, None, None, None, None);
    assert!(result.is_err());
}

#[test]
fn pgamma_new_3() {
    let dict = make_params(10, Some((0, 1024)), Some(1024));
    let xp = names(0..5);
    let yp = names(5..10);

    let result = PGamma::new(
        "test",
        &xp,
        &yp,
        &dict,
        Some(-1),
        Some(1),
        Some(512),
        Some(511),
        Some(1000),
        Some(256),
    );
    assert!(result.is_ok());
    let spec = result.unwrap();

    let x = spec.get_histogram_2d().x_axis();
    let y = spec.get_histogram_2d().y_axis();

    assert_eq!(-1, x.low());
    assert_eq!(1, x.high());
    assert_eq!(512 + 2, x.num_bins());

    assert_eq!(511, y.low());
    assert_eq!(1000, y.high());
    assert_eq!(256 + 2, y.num_bins());
}

#[test]
fn pgamma_new_4() {
    let dict = make_params(10, None, None);
    let xp = names(0..5);
    let yp = names(5..10);
    let result = PGamma::new(
        "test", &xp, &yp, &dict, None, Some(1), Some(512), Some(511), Some(1000), Some(256),
    );
    assert!(result.is_err());

    let result = PGamma::new(
        "test", &xp, &yp, &dict, Some(-1), Some(1), Some(512), None, Some(1000), Some(256),
    );
    assert!(result.is_err());
}

#[test]
fn new_5() {
    let dict = make_params(10, None, None);
    let xp = names(0..5);
    let yp = names(5..10);
    let result = PGamma::new(
        "test", &xp, &yp, &dict, Some(-1), None, Some(512), Some(511), Some(1000), Some(256),
    );
    assert!(result.is_err());

    let result = PGamma::new(
        "test", &xp, &yp, &dict, Some(-1), Some(1), Some(512), Some(511), None, Some(256),
    );
    assert!(result.is_err());
}

#[test]
fn new_6() {
    let dict = make_params(10, None, None);
    let xp = names(0..5);
    let yp = names(5..10);
    let result = PGamma::new(
        "test", &xp, &yp, &dict, Some(-1), Some(1), None, Some(511), Some(1000), Some(256),
    );
    assert!(result.is_err());

    let result = PGamma::new(
        "test", &xp, &yp, &dict, Some(-1), Some(1), Some(512), Some(511), Some(1000), None,
    );
    assert!(result.is_err());

    let result = PGamma::new(
        "test", &xp, &yp, &dict, Some(-1), Some(1), Some(512), Some(511), Some(1000), Some(256),
    );
    assert!(result.is_ok());
}

#[test]
fn incr_1() {
    let dict = make_params(10, Some((0, 1024)), Some(1024));
    let xp = names(0..5);
    let yp = names(5..10);

    let mut spec = PGamma::new("test", &xp, &yp, &dict, None, None, None, None, None, None)
        .expect("Failed to make spectruM");

    let mut all_names = xp.clone();
    for n in yp.iter() {
        all_names.push(n.clone());
    }
    let fe = full_event(&dict, &all_names);
    let mut gdict = ConditionDictionary::new();
    spec.handle_event(&fe, &mut gdict);

    for (i, _) in xp.iter().enumerate() {
        for (j, _) in yp.iter().enumerate() {
            let x = i as i64 * 10;
            let y = (j + 5) as i64 * 10;
            let v = spec.get_histogram_2d().value(x, y);
            assert_eq!(1, v);
        }
    }
}

#[test]
fn incr_2() {
    let dict = make_params(10, Some((0, 1024)), Some(1024));
    let xp = names(0..5);
    let yp = names(5..10);

    let mut spec = PGamma::new("test", &xp, &yp, &dict, None, None, None, None, None, None)
        .expect("Failed to make spectrum");

    let mut gdict = ConditionDictionary::new();
    assert!(gdict.insert(String::from("true"), Gate::True(True {})).is_none());
    spec.gate("true", &gdict).expect("Could not apply true gate");

    let mut all_names = xp.clone();
    for n in yp.iter() {
        all_names.push(n.clone());
    }
    let fe = full_event(&dict, &all_names);
    spec.handle_event(&fe, &mut gdict);

    for (i, _) in xp.iter().enumerate() {
        for (j, _) in yp.iter().enumerate() {
            let x = i as i64 * 10;
            let y = (j + 5) as i64 * 10;
            let v = spec.get_histogram_2d().value(x, y);
            assert_eq!(1, v);
        }
    }
}

#[test]
fn incr_3() {
    let dict = make_params(10, Some((0, 1024)), Some(1024));
    let xp = names(0..5);
    let yp = names(5..10);

    let mut spec = PGamma::new("test", &xp, &yp, &dict, None, None, None, None, None, None)
        .expect("Failed to make spectrum");

    let mut gdict = ConditionDictionary::new();
    assert!(gdict.insert(String::from("false"), Gate::False(False {})).is_none());
    spec.gate("false", &gdict).expect("Could not apply false gate");

    let mut all_names = xp.clone();
    for n in yp.iter() {
        all_names.push(n.clone());
    }
    let fe = full_event(&dict, &all_names);
    spec.handle_event(&fe, &mut gdict);

    assert_eq!(0, total_2d(spec.get_histogram_2d()));
}

fn summary_params(with_metadata: bool) -> (ParameterDictionary, Vec<String>) {
    let mut pd = ParameterDictionary::new();
    let mut names = Vec::<String>::new();
    for i in 0..10 {
        let name = format!("param{}", i);
        pd.add(&name).unwrap();
        if with_metadata {
            pd.set_limits(&name, 0, 1023).unwrap();
            pd.set_bins(&name, 1024).unwrap();
            pd.set_description(&name, "Arbitrary").unwrap();
        }
        names.push(name);
    }
    (pd, names)
}

#[test]
fn summary_new_1() {
    let (pd, names) = summary_params(true);

    let result = Summary::new("summary-test", names.clone(), &pd, None, None, None);
    assert!(result.is_ok());
    let s = result.unwrap();
    assert!(s.get_gate().gate_name().is_none());
    assert_eq!(String::from("summary-test"), s.get_name());
    assert_eq!(names.len(), s.get_params().len());
    for (i, n) in names.iter().enumerate() {
        assert_eq!(*n, s.get_params()[i].name);
        assert_eq!(i + 1, s.get_params()[i].id as usize);
    }
    let x = s.get_histogram_2d().x_axis();
    let y = s.get_histogram_2d().y_axis();

    assert_eq!(0, x.low());
    assert_eq!(names.len() as i64, x.high());
    assert_eq!(names.len() + 2, x.num_bins());

    assert_eq!(0, y.low());
    assert_eq!(1023, y.high());
    assert_eq!(1024 + 2, y.num_bins());
}

#[test]
fn summary_new_2() {
    let (pd, names) = summary_params(true);

    let result = Summary::new("summary-test", names.clone(), &pd, Some(-1), Some(1), Some(200));
    assert!(result.is_ok());
    let s = result.unwrap();
    assert!(s.get_gate().gate_name().is_none());
    assert_eq!(String::from("summary-test"), s.get_name());
    assert_eq!(names.len(), s.get_params().len());
    for (i, n) in names.iter().enumerate() {
        assert_eq!(*n, s.get_params()[i].name);
        assert_eq!(i + 1, s.get_params()[i].id as usize);
    }
    let x = s.get_histogram_2d().x_axis();
    let y = s.get_histogram_2d().y_axis();

    assert_eq!(0, x.low());
    assert_eq!(names.len() as i64, x.high());
    assert_eq!(names.len() + 2, x.num_bins());

    assert_eq!(-1, y.low());
    assert_eq!(1, y.high());
    assert_eq!(200 + 2, y.num_bins());
}

#[test]
fn summary_new_3() {
    let (pd, names) = summary_params(false);
    let result = Summary::new("summary-test", names.clone(), &pd, None, Some(1), Some(200));
    assert!(result.is_err());

    let result = Summary::new("summary-test", names.clone(), &pd, Some(-1), None, Some(200));
    assert!(result.is_err());

    let result = Summary::new("summary-test", names.clone(), &pd, Some(-1), Some(1), None);
    assert!(result.is_err());
}

#[test]
fn summary_new_4() {
    let (pd, mut names) = summary_params(true);
    names.push(String::from("No-such-parameter"));
    let result = Summary::new("summary-test", names.clone(), &pd, None, None, None);
    assert!(result.is_err());
    assert_eq!(
        result.err(),
        Some(AnalysisError::UnknownParameter(String::from("No-such-parameter")))
    );
}

#[test]
fn one_d_ungated_scenario() {
    let mut pd = ParameterDictionary::new();
    assert_eq!(Ok(1), pd.add("p"));
    pd.set_limits("p", 0, 1024).unwrap();
    pd.set_bins("p", 1024).unwrap();

    let s1 = OneD::new("s1", "p", &pd, None, None, None).unwrap();
    let mut spectra = SpectrumDictionary::new();
    spectra.add(Spectrum::OneD(s1)).unwrap();
    let mut conds = ConditionDictionary::new();
    let mut flat = FlatEvent::new();
    for v in [10, 10, 20, 1030] {
        let mut e = Event::new();
        e.push(EventParameter::new(1, v));
        spectra.process_event(&e, &mut flat, &mut conds);
    }
    let h = spectra.get(0).get_histogram_1d().unwrap();
    assert_eq!(2, h.value(10));
    assert_eq!(1, h.value(20));
    assert_eq!(1, h.get(1025));
    assert_eq!(1, h.value(1030));
    let mut sum = 0;
    for i in 0..h.axis().num_bins() {
        sum += h.get(i);
    }
    assert_eq!(4, sum);
}

#[test]
fn summary_defaults_scenario() {
    let (pd, names) = summary_params(true);
    let s = Summary::new("summary", names, &pd, None, None, None).unwrap();
    let y = s.get_histogram_2d().y_axis();
    assert_eq!(0, y.low());
    assert_eq!(1023, y.high());
    assert_eq!(1024, y.bins());
    assert_eq!(10 + 2, s.get_histogram_2d().x_axis().num_bins());
}

#[test]
fn pgamma_combinatorics_scenario() {
    let dict = make_params(8, Some((0, 1024)), Some(1024));
    let xp = vec![String::from("param.0"), String::from("param.1")];
    let yp = vec![String::from("param.5"), String::from("param.6"), String::from("param.7")];
    let mut spec = PGamma::new("pg", &xp, &yp, &dict, None, None, None, None, None, None).unwrap();

    let mut e = Event::new();
    for (name, value) in [("param.0", 0), ("param.1", 10), ("param.5", 100), ("param.6", 110), ("param.7", 120)] {
        e.push(EventParameter::new(dict.lookup(name).unwrap().get_id(), value));
    }
    let mut fe = FlatEvent::new();
    fe.load_event(&e);
    let mut conds = ConditionDictionary::new();
    spec.handle_event(&fe, &mut conds);

    let h = spec.get_histogram_2d();
    for x in [0, 10] {
        for y in [100, 110, 120] {
            assert_eq!(1, h.value(x, y));
        }
    }
    assert_eq!(6, total_2d(h));
}

#[test]
fn axis_default_failure_scenario() {
    let (pd, names) = summary_params(false);
    let result = Summary::new("summary", names, &pd, None, None, None);
    assert_eq!(result.err(), Some(AnalysisError::AxisUndefined(String::from("y-low"))));
}

#[test]
fn summary_increment_by_position() {
    let (pd, names) = summary_params(true);
    let mut s = Summary::new("summary", names, &pd, None, None, None).unwrap();
    let mut e = Event::new();
    e.push(EventParameter::new(3, 100));
    e.push(EventParameter::new(7, 5));
    let mut fe = FlatEvent::new();
    fe.load_event(&e);
    let mut conds = ConditionDictionary::new();
    s.handle_event(&fe, &mut conds);
    let h = s.get_histogram_2d();
    // Parameter id 3 is at position 2, id 7 at position 6.
    assert_eq!(1, h.value(2, 100));
    assert_eq!(1, h.value(6, 5));
    assert_eq!(2, total_2d(h));
}

#[test]
fn two_d_needs_both_parameters() {
    let dict = make_params(2, Some((0, 100)), Some(10));
    let mut s = TwoD::new("xy", "param.0", "param.1", &dict, None, None, None, None, None, None).unwrap();
    let mut conds = ConditionDictionary::new();
    let mut e = Event::new();
    e.push(EventParameter::new(1, 15));
    let mut fe = FlatEvent::new();
    fe.load_event(&e);
    s.handle_event(&fe, &mut conds);
    assert_eq!(0, total_2d(s.get_histogram_2d()));
    e.push(EventParameter::new(2, 95));
    fe.load_event(&e);
    s.handle_event(&fe, &mut conds);
    assert_eq!(1, s.get_histogram_2d().value(15, 95));
    // Over [0, 100) in 10 bins, after the underflow bin at index 0,
    // 15 falls at index 2 and 95 at index 10.
    assert_eq!(1, s.get_histogram_2d().get(2, 10));
}

#[test]
fn gating_decides_increments() {
    let mut pd = ParameterDictionary::new();
    pd.add("p").unwrap();
    pd.set_limits("p", 0, 100).unwrap();
    pd.set_bins("p", 100).unwrap();
    let mut conds = ConditionDictionary::new();
    conds.insert(String::from("f"), Gate::False(False {}));
    let mut spectra = SpectrumDictionary::new();
    spectra.add(Spectrum::OneD(OneD::new("ungated", "p", &pd, None, None, None).unwrap())).unwrap();
    spectra.add(Spectrum::OneD(OneD::new("gated", "p", &pd, None, None, None).unwrap())).unwrap();
    spectra.gate(1, "f", &conds).unwrap();
    let mut flat = FlatEvent::new();
    let mut e = Event::new();
    e.push(EventParameter::new(1, 42));
    spectra.process_event(&e, &mut flat, &mut conds);
    assert_eq!(1, spectra.get(0).get_histogram_1d().unwrap().value(42));
    assert_eq!(0, spectra.get(1).get_histogram_1d().unwrap().value(42));
    // An event without the parameter increments nothing.
    let empty = Event::new();
    spectra.process_event(&empty, &mut flat, &mut conds);
    assert_eq!(1, spectra.get(0).get_histogram_1d().unwrap().value(42));
    spectra.ungate(1);
    spectra.process_event(&e, &mut flat, &mut conds);
    assert_eq!(1, spectra.get(1).get_histogram_1d().unwrap().value(42));
}

#[test]
fn clear_zeroes_every_bin() {
    let dict = make_params(10, Some((0, 1024)), Some(1024));
    let xp = names(0..5);
    let yp = names(5..10);
    let mut spec = PGamma::new("test", &xp, &yp, &dict, None, None, None, None, None, None).unwrap();
    let mut all = xp.clone();
    all.extend(yp.iter().cloned());
    let fe = full_event(&dict, &all);
    let mut conds = ConditionDictionary::new();
    spec.handle_event(&fe, &mut conds);
    assert_eq!(25, total_2d(spec.get_histogram_2d()));
    spec.clear();
    assert_eq!(0, total_2d(spec.get_histogram_2d()));
}

#[test]
fn no_such_gate_is_reported() {
    let dict = make_params(1, Some((0, 10)), Some(10));
    let mut s = OneD::new("s", "param.0", &dict, None, None, None).unwrap();
    let conds = ConditionDictionary::new();
    assert_eq!(s.gate("nope", &conds), Err(AnalysisError::NoSuchGate(String::from("nope"))));
}

#[test]
fn invalid_axis_is_reported() {
    let (pd, names) = summary_params(true);
    let result = Summary::new("summary", names.clone(), &pd, None, None, Some(0));
    assert_eq!(result.err(), Some(AnalysisError::InvalidAxis(String::from("y"))));
    let result = Summary::new("summary", names, &pd, Some(5), Some(5), None);
    assert_eq!(result.err(), Some(AnalysisError::InvalidAxis(String::from("y"))));
    let result = Summary::new("summary", Vec::new(), &pd, Some(0), Some(5), Some(5));
    assert_eq!(result.err(), Some(AnalysisError::InvalidAxis(String::from("x"))));
}

#[test]
fn duplicate_spectrum_name_is_refused() {
    let dict = make_params(1, Some((0, 10)), Some(10));
    let mut spectra = SpectrumDictionary::new();
    spectra.add(Spectrum::OneD(OneD::new("s", "param.0", &dict, None, None, None).unwrap())).unwrap();
    let again = spectra.add(Spectrum::OneD(OneD::new("s", "param.0", &dict, None, None, None).unwrap()));
    assert_eq!(again, Err(AnalysisError::DuplicateName(String::from("s"))));
    assert_eq!(1, spectra.len());
}

#[test]
fn axis_bins_exactly() {
    let a = Axis::new(1024, 0, 1023).unwrap();
    assert_eq!(0, a.index(-1));
    assert_eq!(1, a.index(0));
    assert_eq!(1023, a.index(1022));
    assert_eq!(1025, a.index(1023));
    let b = Axis::new(3, 10, 0).unwrap();
    assert_eq!(0, b.low());
    assert_eq!(10, b.high());
    assert_eq!(2, b.index(4));
    assert_eq!(3, b.index(7));
    assert!(Axis::new(0, 0, 10).is_none());
    assert!(Axis::new(5, 3, 3).is_none());
}

#[test]
fn pgamma_axis_defaults_are_independent() {
    let mut pd = ParameterDictionary::new();
    for (name, low, high, bins) in [("a", -5, 50, 10), ("b", 0, 80, 20), ("c", 100, 200, 4), ("d", 90, 150, 8)] {
        pd.add(name).unwrap();
        pd.set_limits(name, low, high).unwrap();
        pd.set_bins(name, bins).unwrap();
    }
    let xp = vec![String::from("a"), String::from("b")];
    let yp = vec![String::from("c"), String::from("d")];
    let s = PGamma::new("pg", &xp, &yp, &pd, None, None, None, None, None, None).unwrap();
    let x = s.get_histogram_2d().x_axis();
    let y = s.get_histogram_2d().y_axis();
    assert_eq!((-5, 80, 20), (x.low(), x.high(), x.bins()));
    assert_eq!((90, 200, 8), (y.low(), y.high(), y.bins()));
}
