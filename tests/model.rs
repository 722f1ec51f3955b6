use conserts::dimension::Dimension;
use conserts::elements::{ConsertTreeElement, Demand, Evidence, Gate, GateFunction};
use conserts::error::{ConSertError, ParsingError};
use conserts::model::{create_element, grow_model_tree, Propagation};

fn binary() -> Dimension {
    Dimension::Binary { property_type: "T".into() }
}

fn prop(from: &str, to: &str) -> Propagation {
    Propagation { from: from.into(), to: to.into() }
}

fn model() -> (Vec<String>, Vec<Demand>, Vec<Gate>, Vec<Evidence>) {
    let guarantees = vec!["G_Full".to_string(), "G_Single".to_string(), "G_Empty".to_string()];
    let demands = vec![Demand::new("D1".into(), Some("Demand one".into()), binary())];
    let gates = vec![
        Gate::new("Gate1".into(), 0, GateFunction::And),
        Gate::new("Gate2".into(), 1, GateFunction::Or),
    ];
    let evidence = vec![
        Evidence::new(0, "E1".into(), None, binary()),
        Evidence::new(1, "E2".into(), Some("Second".into()), binary()),
    ];
    (guarantees, demands, gates, evidence)
}

#[test]
fn elements_are_named_by_model_ids() {
    let (g, d, gates, e) = model();
    assert!(matches!(
        create_element("G_Full", &g, &d, &gates, &e).unwrap(),
        ConsertTreeElement::Gate(ref id, 0, GateFunction::And) if id == "TLG_G_Full"
    ));
    assert!(matches!(
        create_element("Gate2", &g, &d, &gates, &e).unwrap(),
        ConsertTreeElement::Gate(ref id, 1, GateFunction::Or) if id == "Gate2"
    ));
    assert!(matches!(
        create_element("E2", &g, &d, &gates, &e).unwrap(),
        ConsertTreeElement::RuntimeEvidence(1, ref l) if l.description.as_deref() == Some("Second")
    ));
    assert!(matches!(
        create_element("D1", &g, &d, &gates, &e).unwrap(),
        ConsertTreeElement::Demand(0, _)
    ));
    assert!(matches!(
        create_element("Nope", &g, &d, &gates, &e),
        Err(ConSertError::Parsing { source: ParsingError::MissingElement(s) }) if s == "Nope"
    ));
}

#[test]
fn model_trees_collapse_small_gates() {
    let (g, d, gates, e) = model();
    let props = vec![
        prop("E1", "Gate1"),
        prop("E2", "Gate1"),
        prop("Gate1", "G_Full"),
        prop("D1", "G_Full"),
        prop("E2", "G_Single"),
    ];
    let full = grow_model_tree("G_Full", &props, &g, &d, &gates, &e).unwrap();
    assert!(matches!(full.data.element, ConsertTreeElement::Gate(ref id, 0, GateFunction::And) if id == "TLG_G_Full"));
    assert_eq!(full.data.children.len(), 2);
    assert!(matches!(full.data.children[0].data.element, ConsertTreeElement::Gate(_, 0, GateFunction::And)));
    assert_eq!(full.data.children[0].data.children.len(), 2);
    assert!(matches!(full.data.children[1].data.element, ConsertTreeElement::Demand(0, _)));

    let single = grow_model_tree("G_Single", &props, &g, &d, &gates, &e).unwrap();
    assert!(matches!(single.data.element, ConsertTreeElement::RuntimeEvidence(1, _)));

    let empty = grow_model_tree("G_Empty", &props, &g, &d, &gates, &e).unwrap();
    assert!(matches!(empty.data.element, ConsertTreeElement::Tautology));

    let or_empty = grow_model_tree("Gate2", &props, &g, &d, &gates, &e).unwrap();
    assert!(matches!(or_empty.data.element, ConsertTreeElement::Contradiction));
}

#[test]
fn cyclic_models_are_rejected() {
    let (g, d, gates, e) = model();
    let props = vec![prop("Gate1", "Gate2"), prop("Gate2", "Gate1")];
    assert!(matches!(
        grow_model_tree("Gate1", &props, &g, &d, &gates, &e),
        Err(ConSertError::Parsing { source: ParsingError::CyclicPropagation(_) })
    ));
}
