use conserts::compile::RuntimeEvidence;
use conserts::dimension::{Dimension, NumericRange, SubsetRelationship, FIXED_POINT_ONE};
use conserts::elements::Evidence;
use conserts::monitor::{
    check, check_demand, FilterConfiguration, Measurement, Monitor, PropertyValue,
    RuntimeProperties,
};
use conserts::uom::UnitOfMeasure;

fn snapshot(v: bool) -> RuntimeEvidence {
    RuntimeEvidence { evidence: vec![v], demands: vec![!v] }
}

#[test]
fn majority_of_three_to_two_is_true() {
    let mut m = Monitor::new(5, 1, 1);
    for v in [true, false, true, false, true] {
        m.add_evidence(snapshot(v));
    }
    let s = m.get_sample();
    assert_eq!(s.evidence, vec![true]);
    assert_eq!(s.demands, vec![false]);
}

#[test]
fn tie_resolves_to_false() {
    let mut m = Monitor::new(5, 1, 1);
    for v in [true, false, true, false] {
        m.add_evidence(snapshot(v));
    }
    let s = m.get_sample();
    assert_eq!(s.evidence, vec![false]);
    assert_eq!(s.demands, vec![false]);
}

#[test]
fn oldest_sample_is_evicted() {
    let mut m = Monitor::new(3, 1, 0);
    let push = |m: &mut Monitor, v: bool| m.add_evidence(RuntimeEvidence { evidence: vec![v], demands: vec![] });
    push(&mut m, true);
    push(&mut m, true);
    push(&mut m, false);
    assert_eq!(m.get_sample().evidence, vec![true]);
    // the fourth push evicts the first `true`
    push(&mut m, false);
    assert_eq!(m.get_sample().evidence, vec![false]);
}

#[test]
fn empty_monitor_votes_false() {
    let m = Monitor::new(1, 2, 1);
    let s = m.get_sample();
    assert_eq!(s.evidence, vec![false, false]);
    assert_eq!(s.demands, vec![false]);
}

#[test]
fn filter_configuration_keeps_depth() {
    let f = FilterConfiguration::new(5);
    assert_eq!(f.depth(), 5);
}

fn distance() -> Dimension {
    Dimension::Numeric {
        property_type: "Distance".into(),
        covered: vec![
            NumericRange::Inclusive(0, 50 * FIXED_POINT_ONE),
            NumericRange::Exclusive(100 * FIXED_POINT_ONE, 200 * FIXED_POINT_ONE),
        ],
        subset: SubsetRelationship::Guarantee,
        uom: Some(UnitOfMeasure::new("m").unwrap()),
    }
}

fn measured(v: i64, unit: &str) -> PropertyValue {
    PropertyValue::Measured(Measurement { value: v, uom: Some(UnitOfMeasure::new(unit).unwrap()) })
}

#[test]
fn numeric_check_converts_units() {
    let d = distance();
    assert!(check(&d, &measured(40 * FIXED_POINT_ONE, "m")));
    assert!(check(&d, &measured(50_000 * FIXED_POINT_ONE, "mm")));
    assert!(!check(&d, &measured(60 * FIXED_POINT_ONE, "m")));
    assert!(check(&d, &measured(100 * FIXED_POINT_ONE, "m")));
    assert!(!check(&d, &measured(200 * FIXED_POINT_ONE, "m")));
    assert!(check(&d, &measured(FIXED_POINT_ONE / 10, "km")));
    assert!(!check(&d, &measured(FIXED_POINT_ONE, "s")));
    assert!(!check(&d, &PropertyValue::Unknown));
    assert!(!check(&d, &PropertyValue::Known(true)));
}

#[test]
fn boolean_checks() {
    let b = Dimension::Binary { property_type: "Approved".into() };
    assert!(check(&b, &PropertyValue::Known(true)));
    assert!(!check(&b, &PropertyValue::Known(false)));
    assert!(!check(&b, &PropertyValue::Unknown));
    assert!(check_demand(&PropertyValue::Known(true)));
    assert!(!check_demand(&PropertyValue::Unknown));
}

#[test]
fn sample_from_properties() {
    let evidence = vec![
        Evidence::new(0, "E0".into(), None, distance()),
        Evidence::new(1, "E1".into(), None, Dimension::Binary { property_type: "A".into() }),
    ];
    let props = RuntimeProperties {
        evidence: vec![measured(10 * FIXED_POINT_ONE, "m"), PropertyValue::Unknown],
        demands: vec![PropertyValue::Known(true)],
    };
    let e = RuntimeEvidence::from_properties(&evidence, &props);
    assert_eq!(e, RuntimeEvidence { evidence: vec![true, false], demands: vec![true] });
    let mut m = Monitor::new(2, 2, 1);
    m.add_sample(&evidence, &props);
    assert_eq!(m.get_sample(), e);
}
