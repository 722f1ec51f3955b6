use conserts::compose::{Link, SystemOfSystems};
use conserts::consert::{Consert, ConsertBuilder};
use conserts::dimension::{Dimension, SubsetRelationship};
use conserts::elements::{ConsertTreeElement, Demand, Tree};
use conserts::error::{CompositionError, ConSertError, ConstructionError};
use conserts::services::{ProvidedService, RequiredService};

fn level(covered: &[&str]) -> Dimension {
    Dimension::Categorical {
        property_type: "Integrity".into(),
        covered: covered.iter().map(|s| s.to_string()).collect(),
        subset: SubsetRelationship::Demand,
    }
}

fn leader(covered: &[&str]) -> Consert {
    ConsertBuilder::new()
        .name("Leader".into())
        .path("leader.model".into())
        .add_guarantee(
            "G_Platoon".into(),
            None,
            level(covered),
            Tree::leaf(ConsertTreeElement::Tautology),
        )
        .add_provided_service(ProvidedService::new("P".into(), vec![0], "Platooning".into()))
        .build()
        .unwrap()
}

fn follower() -> Consert {
    ConsertBuilder::new()
        .name("Follower".into())
        .path("follower.model".into())
        .add_demand(Demand::new("D_Platoon".into(), None, level(&["B"])))
        .add_required_service(RequiredService::new("R".into(), vec![0], "Platooning".into()))
        .build()
        .unwrap()
}

#[test]
fn test_empty_sos_creation() {
    let sos = SystemOfSystems::new();
    assert_eq!(sos.conserts().len(), 0);
}

#[test]
fn test_creation() {
    let sos = SystemOfSystems::from_consert(follower());
    assert!(sos.is_err(), "creating a SoS based on a dependent ConSert MUST fail");
    assert!(matches!(
        sos,
        Err(ConSertError::Composition { source: CompositionError::Dependent })
    ));
    let sos = SystemOfSystems::from_consert(leader(&["A", "B"]));
    assert!(sos.is_ok(), "creating a SoS based on an independent ConSert MUST succeed");
}

#[test]
fn test_composition() {
    let mut sos = SystemOfSystems::from_consert(leader(&["A", "B"])).unwrap();
    assert!(sos.can_consert_be_added(&follower()).is_ok());
    let result = sos.add_consert(follower());
    assert!(result.is_ok(), "Leader + follower should be composable");
    assert_eq!(sos.conserts().len(), 2);
    let added = &sos.conserts()[1];
    let links = added.demands()[0].guarantees();
    assert_eq!(links.len(), 1);
    assert_eq!(links[0].provider, "consert_Leader");
    assert_eq!(links[0].guarantee, "G_Platoon");
    assert_eq!(links[0].index, 0);
}

#[test]
fn test_composition_fail() {
    let mut sos = SystemOfSystems::from_consert(leader(&["A"])).unwrap();
    match sos.can_consert_be_added(&follower()) {
        Err(ConSertError::Composition {
            source: CompositionError::Incompatible { unmatched_demands, .. },
        }) => {
            assert_eq!(unmatched_demands.len(), 1);
            assert_eq!(unmatched_demands[0].id, "D_Platoon");
        }
        _ => panic!("the demand is not fulfilled"),
    }
    let result = sos.add_consert(follower());
    assert!(result.is_err(), "Leader + follower should not be composable");
    if let Err(ConSertError::Composition {
        source: CompositionError::Incompatible { path, unmatched_demands, unmatched_required_services },
    }) = result
    {
        assert!(unmatched_demands.len() == 1);
        assert_eq!(unmatched_demands[0].id, "D_Platoon");
        assert!(unmatched_required_services.is_empty());
        assert_eq!(path, "follower.model");
    } else {
        panic!()
    }
    assert_eq!(sos.conserts().len(), 1);
}

#[test]
fn unmatched_required_service_is_reported() {
    let provider = ConsertBuilder::new()
        .name("Other".into())
        .path("other.model".into())
        .add_guarantee(
            "G".into(),
            None,
            level(&["A", "B"]),
            Tree::leaf(ConsertTreeElement::Tautology),
        )
        .build()
        .unwrap();
    let mut sos = SystemOfSystems::from_consert(provider).unwrap();
    match sos.can_consert_be_added(&follower()) {
        Err(ConSertError::Composition {
            source: CompositionError::Incompatible { path, unmatched_demands, unmatched_required_services },
        }) => {
            assert_eq!(path, "follower.model");
            assert!(unmatched_demands.is_empty());
            assert_eq!(unmatched_required_services.len(), 1);
            assert_eq!(unmatched_required_services[0].functional_service_type, "Platooning");
        }
        _ => panic!("the follower's service is not provided"),
    }
    match sos.add_consert(follower()) {
        Err(ConSertError::Composition {
            source: CompositionError::Incompatible { unmatched_demands, unmatched_required_services, .. },
        }) => {
            assert!(unmatched_demands.is_empty());
            assert_eq!(unmatched_required_services.len(), 1);
            assert_eq!(unmatched_required_services[0].ident, "R");
        }
        _ => panic!("composition should fail"),
    }
}

#[test]
fn every_fulfilling_guarantee_is_linked() {
    let mut sos = SystemOfSystems::from_consert(leader(&["A", "B"])).unwrap();
    assert!(sos.add_consert(leader(&["B"])).is_ok());
    let mut f = follower();
    f.link(&sos);
    let links = f.demands()[0].guarantees();
    assert_eq!(links.len(), 2);
}

#[test]
fn builder_requires_name_and_path() {
    let r = ConsertBuilder::new().path("p".into()).build();
    assert!(matches!(
        r,
        Err(ConSertError::Construction { source: ConstructionError::MissingName })
    ));
    let r = ConsertBuilder::new().name("n".into()).build();
    assert!(matches!(
        r,
        Err(ConSertError::Construction { source: ConstructionError::MissingPath })
    ));
    let c = ConsertBuilder::new().name("n".into()).path("p".into()).build().unwrap();
    assert_eq!(c.crate_name(), "consert_n");
    assert_eq!(c.checksum(), "NOT-TRACED-TO-A-XML-MODEL");
    assert!(c.is_independent());
    let e = Consert::empty();
    assert_eq!(e.path(), "empty");
}

#[test]
fn builder_numbers_evidence() {
    let mut b = ConsertBuilder::new().name("n".into()).path("p".into());
    let i = b.add_runtime_evidence("E".into(), None, Dimension::Binary { property_type: "T".into() });
    let j = b.add_runtime_evidence("F".into(), None, Dimension::Binary { property_type: "T".into() });
    assert_eq!((i, j), (0, 1));
    let c = b.build().unwrap();
    assert_eq!(c.evidence()[1].id, "F");
    assert_eq!(c.evidence()[1].index, 1);
}
