use conserts::compile::{evaluate, failures, RuntimeEvidence};
use conserts::dimension::{Dimension, NumericRange, SubsetRelationship, FIXED_POINT_ONE};
use conserts::elements::{
    ConsertTree, ConsertTreeElement, Demand, Evidence, Gate, GateFunction, LeafLabel, Tree,
};
use conserts::guarantees::{grow_cst, Guarantee, GuaranteePropagation};
use conserts::error::{ConSertError, ParsingError};
use conserts::uom::UnitOfMeasure;

fn generate_tree(name: &str) -> Evidence {
    Evidence::new(
        0,
        format!("{}Evidence", name),
        Some(format!("{}EvidenceDescription", name)),
        Dimension::Binary { property_type: "Property".into() },
    )
}

fn binary(ty: &str) -> Dimension {
    Dimension::Binary { property_type: ty.into() }
}

fn evidence_leaf(index: usize, e: &Evidence) -> ConsertTree {
    let mut element = ConsertTreeElement::from_evidence(e);
    if let ConsertTreeElement::RuntimeEvidence(i, _) = &mut element {
        *i = index;
    }
    Tree::leaf(element)
}

fn prop(a: &str, b: &str, c: &str, d: &str) -> GuaranteePropagation {
    GuaranteePropagation::new(a.into(), b.into(), c.into(), d.into())
}

fn complex_tree() -> (Evidence, Demand, ConsertTree) {
    let evidence1 = generate_tree("First");
    let demand = Demand::new("D0".into(), Some("Demand".into()), binary("Property"));
    let cst_1 = evidence_leaf(0, &evidence1);
    let cst_2 = evidence_leaf(1, &evidence1);
    let cst_3 = Tree::leaf(ConsertTreeElement::from_demand(&demand));
    let cst = Tree::node(
        ConsertTreeElement::Gate("Gate0".into(), 0, GateFunction::And),
        vec![cst_1, cst_2],
    );
    let cst = Tree::node(
        ConsertTreeElement::Gate("Gate1".into(), 1, GateFunction::Or),
        vec![cst, cst_3],
    );
    (evidence1, demand, cst)
}

#[test]
fn test_collect() {
    let evidence = generate_tree("First");
    let cst = evidence_leaf(0, &evidence);
    let guarantee = Guarantee::new(0, "FirstGuarantee".into(), None, binary("Property"), cst);
    let (gates, guarantees) = guarantee.gates_and_guarantee_propagations();
    assert_eq!(gates, vec![]);
    assert_eq!(
        guarantees,
        vec![prop(
            "FirstEvidence",
            "FirstGuarantee",
            "@runtimeEvidence.0",
            "@guarantees.0"
        )]
    );
}

#[test]
fn test_collect_complex() {
    let (_, _, cst) = complex_tree();
    let guarantee = Guarantee::new(0, "FirstGuarantee".into(), None, binary("Property"), cst);
    let (gates, guarantees) = guarantee.gates_and_guarantee_propagations();
    assert_eq!(
        gates,
        vec![
            Gate::new("Gate0".into(), 0, GateFunction::And),
            Gate::new("Gate1".into(), 1, GateFunction::Or)
        ]
    );
    assert_eq!(
        guarantees,
        vec![
            prop("FirstEvidence", "Gate0", "@runtimeEvidence.0", "@gates.0"),
            prop("FirstEvidence", "Gate0", "@runtimeEvidence.1", "@gates.0"),
            prop("Gate0", "Gate1", "@gates.0", "@gates.1"),
            prop("D0", "Gate1", "@demands.0", "@gates.1"),
            prop("Gate1", "FirstGuarantee", "@gates.1", "@guarantees.0"),
        ]
    );
}

fn same_structure(a: &ConsertTree, b: &ConsertTree) -> bool {
    let key = |e: &ConsertTreeElement| match e {
        ConsertTreeElement::RuntimeEvidence(i, _) => format!("e{}", i),
        ConsertTreeElement::Demand(i, _) => format!("d{}", i),
        ConsertTreeElement::Gate(_, i, f) => format!("g{}{:?}", i, f),
        ConsertTreeElement::Tautology => "t".to_string(),
        ConsertTreeElement::Contradiction => "c".to_string(),
    };
    key(&a.data.element) == key(&b.data.element)
        && a.data.children.len() == b.data.children.len()
        && a.data.children.iter().zip(b.data.children.iter()).all(|(x, y)| same_structure(x, y))
}

#[test]
fn regrowing_from_edges_reproduces_the_tree() {
    let (evidence1, demand, cst) = complex_tree();
    let guarantee = Guarantee::new(0, "FirstGuarantee".into(), None, binary("Property"), cst);
    let (gates, props) = guarantee.gates_and_guarantee_propagations();
    let second = Evidence::new(1, "Second".into(), None, binary("Property"));
    let evidence = vec![evidence1, second];
    let demands = vec![demand];
    let root = props.last().unwrap().source_path();
    assert_eq!(root, "@gates.1");
    let grown = grow_cst(&root, &props, &evidence, &gates, &demands).unwrap();
    assert!(same_structure(&grown, &guarantee.cst));
    match &grown.data.element {
        ConsertTreeElement::Gate(id, 1, GateFunction::Or) => assert_eq!(id, "Gate1"),
        _ => panic!("root is not the Or gate"),
    }
}

#[test]
fn regrowing_rejects_unknown_paths_and_cycles() {
    let gates = vec![Gate::new("G".into(), 0, GateFunction::And)];
    let cyclic = vec![prop("G", "G", "@gates.0", "@gates.0")];
    assert!(matches!(
        grow_cst("@gates.0", &cyclic, &vec![], &gates, &vec![]),
        Err(ConSertError::Parsing { source: ParsingError::CyclicPropagation(_) })
    ));
    assert!(matches!(
        grow_cst("@gates.7", &vec![], &vec![], &gates, &vec![]),
        Err(ConSertError::Parsing { source: ParsingError::WrongIndex(kind, index) })
            if kind == "gate" && index == "7"
    ));
    assert!(matches!(
        grow_cst("@gates.01", &vec![], &vec![], &gates, &vec![]),
        Err(ConSertError::Parsing { source: ParsingError::InvalidConsertTreePath(p) }) if p == "@gates.01"
    ));
    assert!(matches!(
        grow_cst("@nothing.0", &vec![], &vec![], &gates, &vec![]),
        Err(ConSertError::Parsing { source: ParsingError::InvalidConsertTreePath(_) })
    ));
    assert!(matches!(
        grow_cst("@demands.0", &vec![], &vec![], &gates, &vec![]),
        Err(ConSertError::Parsing { source: ParsingError::WrongIndex(kind, _) }) if kind == "demand"
    ));
    let t = grow_cst("@tautology", &vec![], &vec![], &gates, &vec![]).unwrap();
    assert!(matches!(t.data.element, ConsertTreeElement::Tautology));
}

#[test]
fn tautology_children_get_an_edge() {
    let cst = Tree::node(
        ConsertTreeElement::Gate("G".into(), 3, GateFunction::Or),
        vec![
            Tree::leaf(ConsertTreeElement::Tautology),
            Tree::leaf(ConsertTreeElement::Contradiction),
        ],
    );
    let guarantee = Guarantee::new(12, "G12".into(), None, binary("P"), cst);
    let (_, props) = guarantee.gates_and_guarantee_propagations();
    assert_eq!(
        props,
        vec![
            prop("Tautology", "G", "@tautology", "@gates.3"),
            prop("Contradiction", "G", "@contradiction", "@gates.3"),
            prop("G", "G12", "@gates.3", "@guarantees.12"),
        ]
    );
}

fn speed(lo: i64, hi: i64) -> Dimension {
    Dimension::Numeric {
        property_type: "Speed".into(),
        covered: vec![NumericRange::Inclusive(lo * FIXED_POINT_ONE, hi * FIXED_POINT_ONE)],
        subset: SubsetRelationship::Demand,
        uom: Some(UnitOfMeasure::new("m/s").unwrap()),
    }
}

fn sil(covered: &[&str]) -> Dimension {
    Dimension::Categorical {
        property_type: "SIL".into(),
        covered: covered.iter().map(|s| s.to_string()).collect(),
        subset: SubsetRelationship::Demand,
    }
}

fn guarantee_with(dimensions: Vec<Dimension>) -> Guarantee {
    Guarantee {
        id: "G".into(),
        description: None,
        dimensions,
        index: 0,
        cst: Tree::leaf(ConsertTreeElement::Tautology),
    }
}

#[test]
fn test_fulfill_dimensions() {
    let demand = Demand {
        id: "D".into(),
        description: None,
        dimensions: vec![speed(0, 5), sil(&["SIL4"])],
        index: 0,
        linked_guarantees: vec![],
    };
    assert!(!guarantee_with(vec![]).fulfills(&demand));
    assert!(!guarantee_with(vec![speed(0, 5)]).fulfills(&demand));
    assert!(!guarantee_with(vec![speed(0, 5), sil(&["SIL3"])]).fulfills(&demand));
    assert!(guarantee_with(vec![speed(0, 5), sil(&["SIL4", "SIL3", "SIL2", "SIL1"])])
        .fulfills(&demand));
    let latency = Dimension::Numeric {
        property_type: "Latency".into(),
        covered: vec![NumericRange::Inclusive(0, FIXED_POINT_ONE)],
        subset: SubsetRelationship::Demand,
        uom: Some(UnitOfMeasure::new("s").unwrap()),
    };
    assert!(guarantee_with(vec![
        speed(0, 5),
        sil(&["SIL4", "SIL3", "SIL2", "SIL1"]),
        latency
    ])
    .fulfills(&demand));
}

fn asil(covered: &[&str], subset: SubsetRelationship) -> Dimension {
    Dimension::Categorical {
        property_type: "ASIL".into(),
        covered: covered.iter().map(|s| s.to_string()).collect(),
        subset,
    }
}

fn tautology_guarantee(d: Dimension) -> Guarantee {
    Guarantee::new(0, "G".into(), None, d, Tree::leaf(ConsertTreeElement::Tautology))
}

#[test]
fn test_composition_categorical_dimensions() {
    let demand = Demand::new("D".into(), None, asil(&["ASIL-B"], SubsetRelationship::Demand));
    let guarantee =
        tautology_guarantee(asil(&["ASIL-B", "SIL3"], SubsetRelationship::Demand));
    assert!(guarantee.fulfills(&demand));

    let demand = Demand::new("D".into(), None, asil(&["ASIL-B"], SubsetRelationship::Demand));
    let guarantee = tautology_guarantee(asil(
        &["ASIL-D", "ASIL-C", "ASIL-B", "ASIL-A", "SIL3"],
        SubsetRelationship::Demand,
    ));
    assert!(guarantee.fulfills(&demand));

    let demand = Demand::new(
        "D".into(),
        None,
        asil(&["ASIL-B", "SIL3"], SubsetRelationship::Demand),
    );
    let guarantee = tautology_guarantee(asil(&["ASIL-B"], SubsetRelationship::Demand));
    assert!(!guarantee.fulfills(&demand));

    let demand = Demand::new(
        "D".into(),
        None,
        asil(&["ASIL-B", "SIL3"], SubsetRelationship::Guarantee),
    );
    let guarantee = tautology_guarantee(asil(&["ASIL-B"], SubsetRelationship::Guarantee));
    assert!(guarantee.fulfills(&demand));
}

#[test]
fn guarantee_without_a_direction_fails() {
    let demand = Demand::new("D".into(), None, asil(&["ASIL-B"], SubsetRelationship::Guarantee));
    let guarantee = tautology_guarantee(asil(&["ASIL-B"], SubsetRelationship::Demand));
    assert!(!guarantee.fulfills(&demand));
}

fn rte(evidence: &[bool], demands: &[bool]) -> RuntimeEvidence {
    RuntimeEvidence { evidence: evidence.to_vec(), demands: demands.to_vec() }
}

#[test]
fn gate_identities() {
    let and = Tree::node(ConsertTreeElement::Gate("A".into(), 0, GateFunction::And), vec![]);
    let or = Tree::node(ConsertTreeElement::Gate("O".into(), 1, GateFunction::Or), vec![]);
    let t = Tree::leaf(ConsertTreeElement::Tautology);
    let c = Tree::leaf(ConsertTreeElement::Contradiction);
    let r = rte(&[], &[]);
    assert!(evaluate(&and, &r));
    assert!(!evaluate(&or, &r));
    assert!(evaluate(&t, &r));
    assert!(failures(&t, &r).is_empty());
    assert!(!evaluate(&c, &r));
    assert!(failures(&c, &r).is_empty());
}

#[test]
fn evaluation_and_diagnosis_of_a_tree() {
    let (_, _, cst) = complex_tree();
    // Or(And(e0, e1), d0)
    assert!(evaluate(&cst, &rte(&[true, true], &[false])));
    assert!(evaluate(&cst, &rte(&[false, true], &[true])));
    assert!(!evaluate(&cst, &rte(&[true, false], &[false])));
    // the false demand under a satisfied Or branch is still reported
    let f = failures(&cst, &rte(&[true, true], &[false]));
    assert_eq!(f, vec!["Demand".to_string()]);
    // both evidence leaves share a description, reported once
    let f = failures(&cst, &rte(&[false, false], &[false]));
    assert_eq!(
        f,
        vec!["FirstEvidenceDescription".to_string(), "Demand".to_string()]
    );
    assert!(failures(&cst, &rte(&[true, true], &[true])).is_empty());
}

#[test]
fn leaf_without_description_is_reported_by_id() {
    let leaf = Tree::leaf(ConsertTreeElement::RuntimeEvidence(
        0,
        LeafLabel { id: "E0".into(), description: None },
    ));
    assert_eq!(failures(&leaf, &rte(&[false], &[])), vec!["E0".to_string()]);
}

#[test]
fn element_paths_and_ids() {
    let e = ConsertTreeElement::Gate("Gate7".into(), 123, GateFunction::And);
    assert_eq!(e.to_path_name(), "gates.123");
    assert_eq!(e.id(), "Gate7");
    let d = ConsertTreeElement::Demand(40, LeafLabel { id: "D40".into(), description: None });
    assert_eq!(d.to_path_name(), "demands.40");
    let gates = vec![Gate::new("Gate7".into(), 123, GateFunction::And)];
    let back = ConsertTreeElement::from_path("@gates.123", &vec![], &gates, &vec![]).unwrap();
    assert!(matches!(back, ConsertTreeElement::Gate(ref id, 123, GateFunction::And) if id == "Gate7"));
}

#[test]
fn evidence_fulfills_by_dimension() {
    let a = Evidence::new(0, "A".into(), None, sil(&["SIL3"]));
    let b = Evidence::new(1, "B".into(), None, sil(&["SIL3", "SIL4"]));
    let c = Evidence::new(2, "C".into(), None, binary("SIL"));
    assert!(matches!(a.fulfills(&b), Ok(true)));
    assert!(matches!(b.fulfills(&a), Ok(false)));
    assert!(matches!(
        a.fulfills(&c),
        Err(conserts::error::ConSertError::UnitOfMeasure {
            source: conserts::error::UnitOfMeasureError::Incompatible
        })
    ));
}

#[test]
fn binary_dimensions_of_different_types_do_not_fulfill() {
    let demand = Demand::new("D".into(), None, binary("Steering"));
    let braking = tautology_guarantee(binary("Braking"));
    let steering = tautology_guarantee(binary("Steering"));
    assert!(!braking.fulfills(&demand));
    assert!(steering.fulfills(&demand));
}

#[test]
fn regrown_leaves_take_labels_from_the_lists() {
    let gates = vec![Gate::new("Top".into(), 4, GateFunction::Or)];
    let evidence = vec![Evidence::new(2, "E2".into(), Some("Second evidence".into()), binary("P"))];
    let props = vec![prop("x", "Top", "@runtimeEvidence.2", "@gates.4")];
    let t = grow_cst("@gates.4", &props, &evidence, &gates, &vec![]).unwrap();
    assert!(matches!(t.data.element, ConsertTreeElement::Gate(ref id, 4, GateFunction::Or) if id == "Top"));
    assert!(matches!(
        t.data.children[0].data.element,
        ConsertTreeElement::RuntimeEvidence(2, ref l)
            if l.id == "E2" && l.description.as_deref() == Some("Second evidence")
    ));
}
