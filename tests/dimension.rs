use conserts::dimension::{
    Dimension, NumericRange, SubsetRelationship, SubsetResult, FIXED_POINT_ONE,
};
use conserts::error::{ParsingError, UnitOfMeasureError};
use conserts::uom::{Dimension as Quantity, UnitKind, UnitOfMeasure};

fn fx(v: i64) -> i64 {
    v * FIXED_POINT_ONE
}

fn numeric(ty: &str, lo: i64, hi: i64, uom: Option<&str>) -> Dimension {
    Dimension::Numeric {
        property_type: ty.to_string(),
        covered: vec![NumericRange::Inclusive(lo, hi)],
        subset: SubsetRelationship::Demand,
        uom: uom.map(|u| UnitOfMeasure::new(u).unwrap()),
    }
}

fn categorical(ty: &str, covered: &[&str]) -> Dimension {
    Dimension::Categorical {
        property_type: ty.to_string(),
        covered: covered.iter().map(|s| s.to_string()).collect(),
        subset: SubsetRelationship::Demand,
    }
}

#[test]
fn test_subset_no_uom() {
    let d1 = numeric("Value", 0, fx(5), None);
    let d2 = numeric("Value", 0, fx(10), None);
    assert_eq!(d1.subset_of(&d2), SubsetResult::True);
}

#[test]
fn test_subset_compatible_uom() {
    let d1 = numeric("Value", 0, fx(5), Some("mm"));
    let d2 = numeric("Value", 0, fx(10), Some("mm"));
    assert_eq!(d1.subset_of(&d2), SubsetResult::True);
}

#[test]
fn test_subset_compatible_uom_factors() {
    let d1_ms_1000 = numeric("Value", 0, fx(1000), Some("ms"));
    let d1_ms_999 = numeric("Value", 0, fx(999), Some("ms"));
    let d1_ms_10000 = numeric("Value", 0, fx(10000), Some("ms"));
    let d2_s = numeric("Value", 0, fx(1), Some("s"));
    let d2_s_9 = numeric("Value", 0, fx(9), Some("s"));
    let d2_s_10 = numeric("Value", 0, fx(10), Some("s"));
    assert_eq!(d2_s.subset_of(&d1_ms_1000), SubsetResult::True);
    assert_eq!(d1_ms_10000.subset_of(&d2_s_10), SubsetResult::True);
    assert_eq!(d2_s.subset_of(&d1_ms_999), SubsetResult::False);
    assert_eq!(d1_ms_10000.subset_of(&d2_s_9), SubsetResult::False);
}

#[test]
fn test_non_subset_compatible_uom() {
    let d1 = numeric("Value", 0, fx(5), Some("m"));
    let d2 = numeric("Value", 0, fx(10), Some("mm"));
    assert_eq!(d1.subset_of(&d2), SubsetResult::False);
}

#[test]
fn test_incompatible_uom() {
    let d1 = numeric("Value", 0, fx(5), Some("m"));
    let d2 = numeric("Value", 0, fx(10), Some("m/s"));
    assert_eq!(d1.subset_of(&d2), SubsetResult::Incompatible);
}

#[test]
fn test_different_types() {
    let d1 = numeric("FrontDistance", 0, fx(5), Some("m"));
    let d2 = numeric("BackDistance", 0, fx(10), Some("m"));
    assert_eq!(d1.subset_of(&d2), SubsetResult::Incompatible);
}

#[test]
fn missing_unit_on_one_side_is_incompatible() {
    let d1 = numeric("Value", 0, fx(5), None);
    let d2 = numeric("Value", 0, fx(10), Some("m"));
    assert_eq!(d1.subset_of(&d2), SubsetResult::Incompatible);
    let u1: Option<UnitOfMeasure> = None;
    let u2 = Some(UnitOfMeasure::new("m").unwrap());
    assert_eq!(
        Dimension::compatible(&u1, &u2),
        Err(UnitOfMeasureError::Incompatible)
    );
    assert_eq!(Dimension::compatible(&u1, &None), Ok(true));
}

#[test]
fn test_from() {
    let t = 5_700_000;
    assert_eq!(
        NumericRange::from("<", t).unwrap(),
        NumericRange::Exclusive(0, t)
    );
    assert_eq!(
        NumericRange::from(">", t).unwrap(),
        NumericRange::Exclusive(t, i64::MAX)
    );
    assert_eq!(
        NumericRange::from("<=", t).unwrap(),
        NumericRange::Inclusive(0, t)
    );
    assert_eq!(
        NumericRange::from(">=", t).unwrap(),
        NumericRange::Inclusive(t, i64::MAX)
    );
    assert_eq!(
        NumericRange::from("bound to", t).unwrap(),
        NumericRange::Inclusive(0, t)
    );
    assert_eq!(
        NumericRange::from("foo", t).unwrap_err(),
        ParsingError::UnsupportedOperator("foo".to_string())
    );
}

#[test]
fn exclusive_ranges_are_half_open() {
    let closed = NumericRange::Inclusive(0, fx(5));
    let open = NumericRange::Exclusive(0, fx(5));
    assert!(open.included_in(&closed));
    assert!(!closed.included_in(&open));
    assert!(NumericRange::Inclusive(0, fx(4)).included_in(&open));
    assert!(open.included_in(&NumericRange::Exclusive(0, fx(5))));
    // an empty range lies in any range
    assert!(NumericRange::Exclusive(fx(7), fx(7)).included_in(&NumericRange::Inclusive(0, 1)));
}

#[test]
fn numeric_subset_is_reflexive_and_transitive() {
    let a = numeric("Speed", fx(1), fx(2), Some("m/s"));
    let b = numeric("Speed", 0, fx(10), Some("km/h"));
    let c = numeric("Speed", 0, fx(3), Some("m/s"));
    assert_eq!(a.subset_of(&a), SubsetResult::True);
    assert_eq!(b.subset_of(&b), SubsetResult::True);
    assert_eq!(a.subset_of(&b), SubsetResult::True);
    assert_eq!(b.subset_of(&c), SubsetResult::True);
    assert_eq!(a.subset_of(&c), SubsetResult::True);
    assert_eq!(c.subset_of(&b), SubsetResult::False);
}

#[test]
fn categorical_subset_is_set_inclusion() {
    let small = categorical("SIL", &["SIL3"]);
    let big = categorical("SIL", &["SIL4", "SIL3"]);
    let other = categorical("ASIL", &["SIL3"]);
    assert_eq!(small.subset_of(&big), SubsetResult::True);
    assert_eq!(big.subset_of(&small), SubsetResult::False);
    assert_eq!(small.subset_of(&small), SubsetResult::True);
    assert_eq!(small.subset_of(&other), SubsetResult::Incompatible);
}

#[test]
fn unit_normalization_round_trip() {
    let ms = numeric("Latency", 0, fx(1000), Some("ms"));
    let s = numeric("Latency", 0, fx(1), Some("s"));
    assert_eq!(ms.subset_of(&s), SubsetResult::True);
    assert_eq!(s.subset_of(&ms), SubsetResult::True);
    let s_less = numeric("Latency", 0, 999_000, Some("s"));
    assert_eq!(ms.subset_of(&s_less), SubsetResult::False);
    let mm = numeric("Length", 0, fx(1500), Some("mm"));
    let m = numeric("Length", 0, 1_500_000, Some("m"));
    assert_eq!(mm.subset_of(&m), SubsetResult::True);
    assert_eq!(m.subset_of(&mm), SubsetResult::True);
}

#[test]
fn binary_dimensions_compare_by_type() {
    let a = Dimension::Binary { property_type: "Approved".to_string() };
    let b = Dimension::Binary { property_type: "Approved".to_string() };
    let c = Dimension::Binary { property_type: "Other".to_string() };
    assert_eq!(a.subset_of(&b), SubsetResult::True);
    assert_eq!(a.subset_of(&c), SubsetResult::Incompatible);
    assert_eq!(a.subset_of(&categorical("Approved", &["x"])), SubsetResult::Incompatible);
    assert_eq!(a.subset(), None);
}

#[test]
fn constructors_reject_empty_covered_sets() {
    assert!(matches!(
        Dimension::categorical("SIL".to_string(), vec![], SubsetRelationship::Demand),
        Err(ParsingError::EmptyCovered)
    ));
    assert!(matches!(
        Dimension::numeric("Speed".to_string(), vec![], SubsetRelationship::Demand, None),
        Err(ParsingError::EmptyCovered)
    ));
    assert!(matches!(
        Dimension::numeric(
            "Speed".to_string(),
            vec![NumericRange::Inclusive(5, 1)],
            SubsetRelationship::Demand,
            None
        ),
        Err(ParsingError::InvalidRange)
    ));
    assert!(Dimension::categorical(
        "SIL".to_string(),
        vec!["SIL1".to_string()],
        SubsetRelationship::Guarantee
    )
    .is_ok());
}

#[test]
fn units_are_read_from_symbols_and_names() {
    let kmh = UnitOfMeasure::new("km/h").unwrap();
    assert_eq!(kmh.kind(), UnitKind::KilometerPerHour);
    assert_eq!(kmh.factor(), (5, 18));
    assert_eq!(kmh.dimension(), Quantity::Velocity);
    assert_eq!(kmh.quantity(), "velocity");
    assert_eq!(kmh.get_unit_ab(), "km/h");
    let km = UnitOfMeasure::new("kilometer").unwrap();
    assert_eq!(km.factor(), (1000, 1));
    assert_eq!(km.measurement_unit(), "kilometer");
    assert_eq!(UnitOfMeasure::new("ns").unwrap().factor(), (1, 1_000_000_000));
    assert_eq!(UnitOfMeasure::new("").unwrap().dimension(), Quantity::Unitless);
    assert!(matches!(
        UnitOfMeasure::new("furlong"),
        Err(UnitOfMeasureError::UnsupportedUnit(s)) if s == "furlong"
    ));
    assert_eq!(km.compatible(&UnitOfMeasure::new("mm").unwrap()), Ok(true));
    assert_eq!(
        km.compatible(&UnitOfMeasure::new("s").unwrap()),
        Err(UnitOfMeasureError::Incompatible)
    );
}

#[test]
fn unit_names() {
    let us = UnitOfMeasure::new("us").unwrap();
    assert_eq!(us.get_unit_ab(), "µs");
    assert_eq!(us.get_unit_singular(), "microsecond");
    assert_eq!(us.get_unit_plural(), "microseconds");
}
