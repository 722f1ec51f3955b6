use conserts::dimension::{Dimension, SubsetRelationship};
use conserts::elements::Demand;
use conserts::consert::Consert;
use conserts::monitor::{CompileParameters, FilterConfiguration};
use conserts::parse::{is_numeric_dimension, split_asil};
use conserts::uom::UnitOfMeasure;

#[test]
fn split_asil_parts() {
    assert_eq!(
        split_asil("Speed bound to 5 m/s:ASIL-B").unwrap(),
        ("Speed bound to 5 m/s".to_string(), "ASIL-B".to_string())
    );
    assert_eq!(
        split_asil("Approved").unwrap(),
        ("Approved".to_string(), "ASIL UNKNOWN".to_string())
    );
    assert_eq!(
        split_asil("a:b:c").unwrap(),
        ("a".to_string(), "b".to_string())
    );
}

#[test]
fn numeric_dimension_texts() {
    assert!(is_numeric_dimension("Distance <= 50 m"));
    assert!(is_numeric_dimension("Delay bound to 5 ms"));
    assert!(is_numeric_dimension("Speed > 3 m/s"));
    assert!(!is_numeric_dimension("HSE Approved Setup"));
}

#[test]
fn demand_names() {
    let d = Demand::from_index_and_node(
        12,
        "Speed deviation".into(),
        Dimension::Categorical {
            property_type: "SIL".into(),
            covered: vec!["SIL1".into()],
            subset: SubsetRelationship::Demand,
        },
    );
    assert_eq!(d.id(), "D12");
    assert_eq!(d.description.as_deref(), Some("Speed deviation"));
    let d = Demand::new("speed_deviation_bound".into(), None, Dimension::Binary { property_type: "T".into() });
    assert_eq!(d.identifier(), "SpeedDeviationBound");
}

#[test]
fn test_path_to_name() {
    assert_eq!(
        Consert::path_to_name(
            std::path::PathBuf::new()
                .join("C:/Temp/The-Test-Crate.model")
                .to_str()
                .unwrap()
        )
        .unwrap(),
        "the_test_crate"
    );
    assert_eq!(Consert::name_from_stem("My-Crate"), "my_crate");
    assert!(Consert::path_to_name("").is_err());
}

#[test]
fn quantity_in_title_case() {
    assert_eq!(UnitOfMeasure::new("km/h").unwrap().Quantity(), "Velocity");
    assert_eq!(UnitOfMeasure::new("N").unwrap().Quantity(), "Force");
}

#[test]
fn compile_parameter_getters() {
    let p = CompileParameters::new(
        "model.yml".into(),
        Some(vec!["a.yml".into()]),
        "./target/".into(),
        FilterConfiguration::new(5),
    );
    assert_eq!(p.path(), "model.yml");
    assert_eq!(p.providers(), vec!["a.yml".to_string()]);
    assert_eq!(p.out_path(), "./target/");
    assert_eq!(p.filter_configuration(), FilterConfiguration::new(5));
    let q = CompileParameters::new("m".into(), None, "o".into(), FilterConfiguration::new(1));
    assert!(q.providers().is_empty());
}

#[test]
fn model_checksum_is_hex_sha3() {
    assert_eq!(
        conserts::checksum::hash_model("abc"),
        "3a985da74fe225b2045c172d6bd390bd855f086e3e9d525b46bfe24511431532"
    );
    assert_eq!(conserts::checksum::hash_model("").len(), 64);
}

#[test]
fn unique_identifiers() {
    use_unique();
}

fn use_unique() {
    let ids: Vec<String> = vec!["a".into(), "b".into(), "c".into()];
    assert!(conserts::parse::has_unique_elements(&ids));
    let ids: Vec<String> = vec!["a".into(), "b".into(), "a".into()];
    assert!(!conserts::parse::has_unique_elements(&ids));
}

#[test]
fn diagram_statements_are_sorted() {
    assert_eq!(
        conserts::plot::subset_to_string(&conserts::dimension::SubsetRelationship::Guarantee),
        "G <= D"
    );
    assert_eq!(
        conserts::plot::subset_to_string(&conserts::dimension::SubsetRelationship::Demand),
        "D <= G"
    );
    let s = "digraph x {a[label=\"<Guarantee>\"];b[label=\"<TLG>\"];a -> b;}";
    assert_eq!(
        conserts::plot::post_process(s),
        "a -> b;{rank=same;digraph x {a[label=\"<Guarantee>\"];}{rank=same;b[label=\"<TLG>\"];}}"
    );
}
