use vstd::prelude::*;
use crate::dimension::{contains_string, names};
use crate::elements::{leaf_label, ConsertTree, ConsertTreeElement, Demand, Evidence, Gate, GateFunction, Tree};
use crate::error::{ConSertError, ParsingError};
use crate::elements::LeafLabel;
use crate::guarantees::{shape_of, ElementKey, Shape};

verus! {

/// An edge of a model's tree, between element identifiers: `from` is a
/// child of `to`.
#[derive(Debug, PartialEq, Eq)]
pub struct Propagation {
    pub from: String,
    pub to: String,
}

/// The position of the first entry whose identifier is `id`.
pub open spec fn position_of(ids: Seq<Seq<char>>, id: Seq<char>) -> Option<int>
    decreases ids.len(),
{
    if ids.len() == 0 {
        None
    } else if ids[0] == id {
        Some(0)
    } else {
        match position_of(ids.drop_first(), id) {
            Some(k) => Some(k + 1),
            None => None,
        }
    }
}

pub open spec fn demand_ids(d: Seq<Demand>) -> Seq<Seq<char>> {
    d.map_values(|x: Demand| x.id@)
}

pub open spec fn gate_ids(g: Seq<Gate>) -> Seq<Seq<char>> {
    g.map_values(|x: Gate| x.id@)
}

pub open spec fn evidence_ids(e: Seq<Evidence>) -> Seq<Seq<char>> {
    e.map_values(|x: Evidence| x.id@)
}

/// The key of the element a model identifier names: the top-level gate of
/// a guarantee (an `And` gate of index zero), else the first demand, gate
/// or evidence with that identifier, at its position in its list.
pub open spec fn model_key(
    id: Seq<char>,
    guarantees: Seq<Seq<char>>,
    demands: Seq<Demand>,
    gates: Seq<Gate>,
    evidence: Seq<Evidence>,
) -> Option<ElementKey> {
    if guarantees.contains(id) {
        Some(ElementKey::Gate(0, GateFunction::And))
    } else if let Some(k) = position_of(demand_ids(demands), id) {
        Some(ElementKey::Demand(k as usize))
    } else if let Some(k) = position_of(gate_ids(gates), id) {
        Some(ElementKey::Gate(k as usize, gates[k].function))
    } else if let Some(k) = position_of(evidence_ids(evidence), id) {
        Some(ElementKey::Evidence(k as usize))
    } else {
        None
    }
}


proof fn lemma_position_found(ids: Seq<Seq<char>>, id: Seq<char>, k: int)
    requires
        0 <= k < ids.len(),
        ids[k] == id,
        forall|q: int| 0 <= q < k ==> ids[q] != id,
    ensures
        position_of(ids, id) == Some(k),
    decreases k,
{
    if k > 0 {
        lemma_position_found(ids.drop_first(), id, k - 1);
    }
}

proof fn lemma_position_absent(ids: Seq<Seq<char>>, id: Seq<char>)
    requires
        forall|q: int| 0 <= q < ids.len() ==> ids[q] != id,
    ensures
        position_of(ids, id) is None,
    decreases ids.len(),
{
    if ids.len() > 0 {
        lemma_position_absent(ids.drop_first(), id);
    }
}

/// The element is the one a model identifier names: the top-level gate
/// `TLG_<id>` of a guarantee, or the first demand, gate or evidence with the
/// identifier, at its position and with its label, id and function.
pub open spec fn model_resolved(
    e: ConsertTreeElement,
    id: Seq<char>,
    guarantees: Seq<Seq<char>>,
    demands: Seq<Demand>,
    gates: Seq<Gate>,
    evidence: Seq<Evidence>,
) -> bool {
    if guarantees.contains(id) {
        e matches ConsertTreeElement::Gate(name, 0, GateFunction::And) && name@ == "TLG_"@ + id
    } else {
        match model_key(id, guarantees, demands, gates, evidence) {
            Some(ElementKey::Demand(k)) => e == ConsertTreeElement::Demand(
                k,
                LeafLabel { id: demands[k as int].id, description: demands[k as int].description },
            ),
            Some(ElementKey::Gate(k, f)) => e matches ConsertTreeElement::Gate(name, k2, f2) && k2 == k
                && f2 == f && name@ == id,
            Some(ElementKey::Evidence(k)) => e == ConsertTreeElement::RuntimeEvidence(
                k,
                LeafLabel { id: evidence[k as int].id, description: evidence[k as int].description },
            ),
            _ => false,
        }
    }
}

/// Every element of the tree is a tautology, a contradiction, or the one
/// some model identifier names (see [`model_resolved`]).
pub open spec fn model_tree_resolved(
    t: ConsertTree,
    guarantees: Seq<Seq<char>>,
    demands: Seq<Demand>,
    gates: Seq<Gate>,
    evidence: Seq<Evidence>,
) -> bool
    decreases t, 1nat,
{
    &&& (t.data.element is Tautology || t.data.element is Contradiction || exists|id: Seq<char>|
        #[trigger] model_resolved(t.data.element, id, guarantees, demands, gates, evidence))
    &&& model_children_resolved(t, guarantees, demands, gates, evidence, t.data.children@.len() as int)
}

pub open spec fn model_children_resolved(
    t: ConsertTree,
    guarantees: Seq<Seq<char>>,
    demands: Seq<Demand>,
    gates: Seq<Gate>,
    evidence: Seq<Evidence>,
    n: int,
) -> bool
    decreases t, 0nat, n,
{
    if n <= 0 || n > t.data.children@.len() {
        true
    } else {
        model_children_resolved(t, guarantees, demands, gates, evidence, n - 1)
            && model_tree_resolved(t.data.children@[n - 1], guarantees, demands, gates, evidence)
    }
}

proof fn lemma_model_children_resolved(
    t: ConsertTree,
    guarantees: Seq<Seq<char>>,
    demands: Seq<Demand>,
    gates: Seq<Gate>,
    evidence: Seq<Evidence>,
    n: int,
)
    requires
        0 <= n <= t.data.children@.len(),
        forall|q: int|
            0 <= q < n ==> #[trigger] model_tree_resolved(
                t.data.children@[q],
                guarantees,
                demands,
                gates,
                evidence,
            ),
    ensures
        model_children_resolved(t, guarantees, demands, gates, evidence, n),
    decreases n,
{
    if n > 0 {
        lemma_model_children_resolved(t, guarantees, demands, gates, evidence, n - 1);
        assert(model_tree_resolved(t.data.children@[n - 1], guarantees, demands, gates, evidence));
    }
}

/// The tree element a model identifier names (see [`model_key`]); a leaf
/// takes its label from its demand or evidence.
pub fn create_element(
    id: &str,
    guarantees: &Vec<String>,
    demands: &Vec<Demand>,
    gates: &Vec<Gate>,
    evidence: &Vec<Evidence>,
) -> (r: Result<ConsertTreeElement, ConSertError>)
    ensures
        r is Ok <==> model_key(id@, names(guarantees@), demands@, gates@, evidence@) is Some,
        r matches Ok(e) ==> crate::guarantees::key_of(e) == model_key(
            id@,
            names(guarantees@),
            demands@,
            gates@,
            evidence@,
        )->Some_0,
        r matches Ok(e) ==> model_resolved(
            e,
            id@,
            names(guarantees@),
            demands@,
            gates@,
            evidence@,
        ),
        r is Err ==> (r matches Err(
            ConSertError::Parsing { source: ParsingError::MissingElement(s) },
        ) && s@ == id@),
{
    let key = id.to_owned();
    if contains_string(guarantees, &key) {
        let mut name = "TLG_".to_owned();
        name.append(id);
        assert(name@ == "TLG_"@ + id@);
        return Ok(ConsertTreeElement::Gate(name, 0, GateFunction::And));
    }
    let mut k: usize = 0;
    while k < demands.len()
        invariant
            k <= demands@.len(),
            key@ == id@,
            !names(guarantees@).contains(id@),
            forall|q: int| 0 <= q < k ==> demand_ids(demands@)[q] != id@,
        decreases demands@.len() - k,
    {
        if demands[k].id == key {
            proof {
                lemma_position_found(demand_ids(demands@), id@, k as int);
            }
            return Ok(ConsertTreeElement::Demand(k, leaf_label(&demands[k].id, &demands[k].description)));
        }
        k = k + 1;
    }
    proof {
        lemma_position_absent(demand_ids(demands@), id@);
    }
    let mut k: usize = 0;
    while k < gates.len()
        invariant
            k <= gates@.len(),
            key@ == id@,
            !names(guarantees@).contains(id@),
            position_of(demand_ids(demands@), id@) is None,
            forall|q: int| 0 <= q < k ==> gate_ids(gates@)[q] != id@,
        decreases gates@.len() - k,
    {
        if gates[k].id == key {
            proof {
                lemma_position_found(gate_ids(gates@), id@, k as int);
            }
            return Ok(ConsertTreeElement::Gate(key, k, gates[k].function));
        }
        k = k + 1;
    }
    proof {
        lemma_position_absent(gate_ids(gates@), id@);
    }
    let mut k: usize = 0;
    while k < evidence.len()
        invariant
            k <= evidence@.len(),
            key@ == id@,
            !names(guarantees@).contains(id@),
            position_of(demand_ids(demands@), id@) is None,
            position_of(gate_ids(gates@), id@) is None,
            forall|q: int| 0 <= q < k ==> evidence_ids(evidence@)[q] != id@,
        decreases evidence@.len() - k,
    {
        if evidence[k].id == key {
            proof {
                lemma_position_found(evidence_ids(evidence@), id@, k as int);
            }
            return Ok(
                ConsertTreeElement::RuntimeEvidence(k, leaf_label(&evidence[k].id, &evidence[k].description)),
            );
        }
        k = k + 1;
    }
    proof {
        lemma_position_absent(evidence_ids(evidence@), id@);
    }
    Err(ConSertError::Parsing { source: ParsingError::MissingElement(key) })
}


/// A gate's structure once grown: a gate without children stands for its
/// identity (a tautology for `And`, a contradiction for `Or`), a gate with
/// one child for that child; anything else keeps its children.
pub open spec fn collapse(k: ElementKey, cs: Seq<Shape>) -> Shape {
    match k {
        ElementKey::Gate(_, f) => if cs.len() == 0 {
            Shape {
                key: if f == GateFunction::And {
                    ElementKey::Tautology
                } else {
                    ElementKey::Contradiction
                },
                children: Seq::empty(),
            }
        } else if cs.len() == 1 {
            cs[0]
        } else {
            Shape { key: k, children: cs }
        },
        _ => Shape { key: k, children: cs },
    }
}

/// The structure grown from a model identifier, with `fuel` bounding the
/// depth: the children of an element are grown from the `from` side of the
/// propagations that go `to` it, in order; gates then collapse.
pub open spec fn model_grow_spec(
    id: Seq<char>,
    props: Seq<Propagation>,
    guarantees: Seq<Seq<char>>,
    demands: Seq<Demand>,
    gates: Seq<Gate>,
    evidence: Seq<Evidence>,
    fuel: nat,
) -> Option<Shape>
    decreases fuel, 1nat, 0int,
{
    if fuel == 0 {
        None
    } else {
        match model_key(id, guarantees, demands, gates, evidence) {
            None => None,
            Some(k) => match model_children_spec(
                id,
                props,
                guarantees,
                demands,
                gates,
                evidence,
                (fuel - 1) as nat,
                props.len() as int,
            ) {
                None => None,
                Some(cs) => Some(collapse(k, cs)),
            },
        }
    }
}

/// The structures grown from the first `n` propagations that go to `id`.
pub open spec fn model_children_spec(
    id: Seq<char>,
    props: Seq<Propagation>,
    guarantees: Seq<Seq<char>>,
    demands: Seq<Demand>,
    gates: Seq<Gate>,
    evidence: Seq<Evidence>,
    fuel: nat,
    n: int,
) -> Option<Seq<Shape>>
    decreases fuel, 2nat, n,
{
    if n <= 0 || n > props.len() {
        Some(Seq::empty())
    } else {
        match model_children_spec(id, props, guarantees, demands, gates, evidence, fuel, n - 1) {
            None => None,
            Some(prev) => if props[n - 1].to@ == id {
                match model_grow_spec(props[n - 1].from@, props, guarantees, demands, gates, evidence, fuel) {
                    None => None,
                    Some(c) => Some(prev.push(c)),
                }
            } else {
                Some(prev)
            },
        }
    }
}

proof fn lemma_model_children_none(
    id: Seq<char>,
    props: Seq<Propagation>,
    guarantees: Seq<Seq<char>>,
    demands: Seq<Demand>,
    gates: Seq<Gate>,
    evidence: Seq<Evidence>,
    fuel: nat,
    a: int,
    b: int,
)
    requires
        0 < a <= b <= props.len(),
        model_children_spec(id, props, guarantees, demands, gates, evidence, fuel, a) is None,
    ensures
        model_children_spec(id, props, guarantees, demands, gates, evidence, fuel, b) is None,
    decreases b - a,
{
    if a < b {
        lemma_model_children_none(id, props, guarantees, demands, gates, evidence, fuel, a, b - 1);
    }
}

fn grow_model(
    id: &str,
    propagations: &Vec<Propagation>,
    guarantees: &Vec<String>,
    demands: &Vec<Demand>,
    gates: &Vec<Gate>,
    evidence: &Vec<Evidence>,
    fuel: usize,
) -> (r: Result<ConsertTree, ConSertError>)
    ensures
        r is Ok <==> model_grow_spec(
            id@,
            propagations@,
            names(guarantees@),
            demands@,
            gates@,
            evidence@,
            fuel as nat,
        ) is Some,
        r matches Ok(t) ==> shape_of(t) == model_grow_spec(
            id@,
            propagations@,
            names(guarantees@),
            demands@,
            gates@,
            evidence@,
            fuel as nat,
        )->Some_0,
        r matches Ok(t) ==> model_tree_resolved(
            t,
            names(guarantees@),
            demands@,
            gates@,
            evidence@,
        ),
    decreases fuel,
{
    let ghost gs = names(guarantees@);
    if fuel == 0 {
        return Err(ConSertError::Parsing { source: ParsingError::CyclicPropagation(id.to_owned()) });
    }
    let element = match create_element(id, guarantees, demands, gates, evidence) {
        Ok(e) => e,
        Err(e) => {
            return Err(e);
        },
    };
    let ghost f = (fuel - 1) as nat;
    let key = id.to_owned();
    let mut children: Vec<ConsertTree> = Vec::new();
    let mut k: usize = 0;
    while k < propagations.len()
        invariant
            k <= propagations@.len(),
            key@ == id@,
            gs == names(guarantees@),
            f == fuel - 1,
            fuel > 0,
            model_children_spec(id@, propagations@, gs, demands@, gates@, evidence@, f, k as int) is Some,
            children@.len() == model_children_spec(
                id@,
                propagations@,
                gs,
                demands@,
                gates@,
                evidence@,
                f,
                k as int,
            )->Some_0.len(),
            forall|q: int|
                0 <= q < children@.len() ==> #[trigger] model_tree_resolved(
                    children@[q],
                    gs,
                    demands@,
                    gates@,
                    evidence@,
                ),
            forall|q: int|
                0 <= q < children@.len() ==> #[trigger] shape_of(children@[q]) == model_children_spec(
                    id@,
                    propagations@,
                    gs,
                    demands@,
                    gates@,
                    evidence@,
                    f,
                    k as int,
                )->Some_0[q],
        decreases propagations@.len() - k,
    {
        let p = &propagations[k];
        if p.to == key {
            match grow_model(p.from.as_str(), propagations, guarantees, demands, gates, evidence, fuel - 1) {
                Ok(c) => {
                    children.push(c);
                },
                Err(e) => {
                    proof {
                        lemma_model_children_none(
                            id@,
                            propagations@,
                            gs,
                            demands@,
                            gates@,
                            evidence@,
                            f,
                            k as int + 1,
                            propagations@.len() as int,
                        );
                    }
                    return Err(e);
                },
            }
        }
        k = k + 1;
    }
    let ghost cs = model_children_spec(
        id@,
        propagations@,
        gs,
        demands@,
        gates@,
        evidence@,
        f,
        propagations@.len() as int,
    )->Some_0;
    let ghost elem = element;
    assert(model_resolved(elem, id@, gs, demands@, gates@, evidence@));
    match element {
        ConsertTreeElement::Gate(name, index, function) => {
            if children.len() == 0 {
                let leaf = match function {
                    GateFunction::And => ConsertTreeElement::Tautology,
                    GateFunction::Or => ConsertTreeElement::Contradiction,
                };
                let t = Tree::leaf(leaf);
                proof {
                    assert(crate::guarantees::children_shapes(t, 0) =~= Seq::<Shape>::empty());
                    assert(model_children_resolved(t, gs, demands@, gates@, evidence@, 0));
                }
                return Ok(t);
            }
            if children.len() == 1 {
                let c = children.pop().unwrap();
                return Ok(c);
            }
            let t = Tree::node(ConsertTreeElement::Gate(name, index, function), children);
            proof {
                assert(model_resolved(t.data.element, id@, gs, demands@, gates@, evidence@));
                lemma_model_children_resolved(t, gs, demands@, gates@, evidence@, t.data.children@.len() as int);
                crate::guarantees::lemma_children_shapes(t, t.data.children@.len() as int);
                assert(crate::guarantees::children_shapes(t, t.data.children@.len() as int) =~= cs);
            }
            Ok(t)
        },
        other => {
            let t = Tree::node(other, children);
            proof {
                assert(model_resolved(t.data.element, id@, gs, demands@, gates@, evidence@));
                lemma_model_children_resolved(t, gs, demands@, gates@, evidence@, t.data.children@.len() as int);
                crate::guarantees::lemma_children_shapes(t, t.data.children@.len() as int);
                assert(crate::guarantees::children_shapes(t, t.data.children@.len() as int) =~= cs);
            }
            Ok(t)
        },
    }
}

/// Grows the tree of a model element from the model's propagations: the
/// children of an element are grown from the `from` side of the
/// propagations that go `to` it, in order; a gate without children becomes
/// its identity and a gate with one child that child. Every other element
/// is the one its model identifier names (see [`model_resolved`]). A chain
/// of propagations longer than the list itself is reported as cyclic.
pub fn grow_model_tree(
    id: &str,
    propagations: &Vec<Propagation>,
    guarantees: &Vec<String>,
    demands: &Vec<Demand>,
    gates: &Vec<Gate>,
    evidence: &Vec<Evidence>,
) -> (r: Result<ConsertTree, ConSertError>)
    requires
        propagations@.len() < usize::MAX,
    ensures
        r is Ok <==> model_grow_spec(
            id@,
            propagations@,
            names(guarantees@),
            demands@,
            gates@,
            evidence@,
            propagations@.len() + 1,
        ) is Some,
        r matches Ok(t) ==> shape_of(t) == model_grow_spec(
            id@,
            propagations@,
            names(guarantees@),
            demands@,
            gates@,
            evidence@,
            propagations@.len() + 1,
        )->Some_0,
        r matches Ok(t) ==> model_tree_resolved(
            t,
            names(guarantees@),
            demands@,
            gates@,
            evidence@,
        ),
{
    grow_model(id, propagations, guarantees, demands, gates, evidence, propagations.len() + 1)
}

} // verus!
