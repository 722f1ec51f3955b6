use vstd::prelude::*;
use crate::dimension::{subset_of_spec, subset_spec, Dimension, SubsetRelationship, SubsetResult};
use crate::elements::{element_id, element_path, ConsertTree, ConsertTreeElement, Demand, Gate, GateFunction};
use crate::text::{decimal, with_decimal};
use crate::elements::{Evidence, Tree};
use crate::error::{ConSertError, ParsingError};

verus! {

/// An evidence-backed assurance a component provides, with the tree that
/// decides at runtime whether it holds.
#[derive(Debug)]
pub struct Guarantee {
    pub id: String,
    pub description: Option<String>,
    pub dimensions: Vec<Dimension>,
    pub index: usize,
    pub cst: ConsertTree,
}

/// A guarantee dimension meets a demand dimension: both have the same
/// covering direction and the side that direction names is a subset of the
/// other (two binary dimensions meet when their types are equal).
pub open spec fn dimension_fulfills(gd: Dimension, dd: Dimension) -> bool {
    &&& subset_spec(gd) == subset_spec(dd)
    &&& match subset_spec(gd) {
        Some(SubsetRelationship::Guarantee) => subset_of_spec(gd, dd) == SubsetResult::True,
        Some(SubsetRelationship::Demand) => subset_of_spec(dd, gd) == SubsetResult::True,
        None => subset_of_spec(gd, dd) == SubsetResult::True,
    }
}

/// Some guarantee dimension meets the demand dimension `dd`.
pub open spec fn dimension_met(gds: Seq<Dimension>, dd: Dimension) -> bool {
    exists|j: int| 0 <= j < gds.len() && #[trigger] dimension_fulfills(gds[j], dd)
}

/// Every demand dimension is met by some guarantee dimension.
pub open spec fn fulfills_spec(gds: Seq<Dimension>, dds: Seq<Dimension>) -> bool {
    forall|i: int| 0 <= i < dds.len() ==> #[trigger] dimension_met(gds, dds[i])
}

fn dimension_fulfills_exec(gd: &Dimension, dd: &Dimension) -> (r: bool)
    ensures
        r == dimension_fulfills(*gd, *dd),
{
    let s = gd.subset();
    let o = dd.subset();
    let same = match (s, o) {
        (None, None) => true,
        (Some(SubsetRelationship::Guarantee), Some(SubsetRelationship::Guarantee)) => true,
        (Some(SubsetRelationship::Demand), Some(SubsetRelationship::Demand)) => true,
        _ => false,
    };
    if !same {
        return false;
    }
    match s {
        Some(SubsetRelationship::Guarantee) => match gd.subset_of(dd) {
            SubsetResult::True => true,
            _ => false,
        },
        Some(SubsetRelationship::Demand) => match dd.subset_of(gd) {
            SubsetResult::True => true,
            _ => false,
        },
        None => match gd.subset_of(dd) {
            SubsetResult::True => true,
            _ => false,
        },
    }
}

impl Guarantee {
    pub fn new(
        index: usize,
        id: String,
        description: Option<String>,
        dimension: Dimension,
        cst: ConsertTree,
    ) -> (r: Guarantee)
        ensures
            r.id == id,
            r.description == description,
            r.dimensions@ == seq![dimension],
            r.index == index,
            r.cst == cst,
    {
        Guarantee { id, index, description, dimensions: vec![dimension], cst }
    }

    pub fn index(&self) -> (r: usize)
        ensures
            r == self.index,
    {
        self.index
    }

    pub fn identifier(&self) -> (r: String)
        ensures
            r == self.id,
    {
        self.id.clone()
    }

    pub fn cst(&self) -> (r: &ConsertTree)
        ensures
            r == &self.cst,
    {
        &self.cst
    }

    /// Whether this guarantee fulfills the demand: every dimension of the
    /// demand is met by some dimension of the guarantee.
    pub fn fulfills(&self, demand: &Demand) -> (r: bool)
        ensures
            r == fulfills_spec(self.dimensions@, demand.dimensions@),
    {
        let dds = &demand.dimensions;
        let gds = &self.dimensions;
        let mut i: usize = 0;
        while i < dds.len()
            invariant
                i <= dds@.len(),
                dds == &demand.dimensions,
                gds == &self.dimensions,
                forall|k: int| 0 <= k < i ==> #[trigger] dimension_met(gds@, dds@[k]),
            decreases dds@.len() - i,
        {
            let mut met = false;
            let mut j: usize = 0;
            while j < gds.len()
                invariant
                    i < dds@.len(),
                    j <= gds@.len(),
                    met == exists|q: int| 0 <= q < j && #[trigger] dimension_fulfills(gds@[q], dds@[i as int]),
                decreases gds@.len() - j,
            {
                if dimension_fulfills_exec(&gds[j], &dds[i]) {
                    met = true;
                }
                j = j + 1;
            }
            if !met {
                assert(!dimension_met(gds@, dds@[i as int]));
                return false;
            }
            i = i + 1;
        }
        true
    }
}

/// A guarantee that has no dimension with the covering direction of some
/// dimension of a demand does not fulfill that demand; in particular a
/// guarantee without dimensions fulfills no demand that has a dimension.
pub proof fn lemma_fulfills_needs_direction(g: Guarantee, d: Demand, i: int)
    requires
        0 <= i < d.dimensions@.len(),
        forall|j: int|
            0 <= j < g.dimensions@.len() ==> subset_spec(#[trigger] g.dimensions@[j]) != subset_spec(
                d.dimensions@[i],
            ),
    ensures
        !fulfills_spec(g.dimensions@, d.dimensions@),
        g.dimensions@.len() == 0 ==> !fulfills_spec(g.dimensions@, d.dimensions@),
{
    assert(!dimension_met(g.dimensions@, d.dimensions@[i]));
}

} // verus!

verus! {

/// An edge of a contract-satisfaction tree, from a child element to its
/// parent gate or from the root element to its guarantee.
#[derive(Debug, Eq, PartialEq)]
pub struct GuaranteePropagation {
    source: String,
    target: String,
    source_path: String,
    target_path: String,
}

/// An edge as values.
pub struct PropagationView {
    pub source: Seq<char>,
    pub target: Seq<char>,
    pub source_path: Seq<char>,
    pub target_path: Seq<char>,
}

impl View for GuaranteePropagation {
    type V = PropagationView;

    closed spec fn view(&self) -> PropagationView {
        PropagationView {
            source: self.source@,
            target: self.target@,
            source_path: self.source_path@,
            target_path: self.target_path@,
        }
    }
}

impl GuaranteePropagation {
    pub fn new(source: String, target: String, source_path: String, target_path: String) -> (r:
        GuaranteePropagation)
        ensures
            r@ == (PropagationView {
                source: source@,
                target: target@,
                source_path: source_path@,
                target_path: target_path@,
            }),
    {
        GuaranteePropagation { source, target, source_path, target_path }
    }

    pub fn source(&self) -> (r: String)
        ensures
            r@ == self@.source,
    {
        self.source.clone()
    }

    pub fn target(&self) -> (r: String)
        ensures
            r@ == self@.target,
    {
        self.target.clone()
    }

    pub fn source_path(&self) -> (r: String)
        ensures
            r@ == self@.source_path,
    {
        self.source_path.clone()
    }

    pub fn target_path(&self) -> (r: String)
        ensures
            r@ == self@.target_path,
    {
        self.target_path.clone()
    }
}

/// The edge from a child element to its parent element.
pub open spec fn edge(child: ConsertTreeElement, parent: ConsertTreeElement) -> PropagationView {
    PropagationView {
        source: element_id(child),
        target: element_id(parent),
        source_path: "@"@ + element_path(child),
        target_path: "@"@ + element_path(parent),
    }
}

/// The gates of a tree as (id, index, function), children before parents,
/// left to right.
pub open spec fn tree_gates(t: ConsertTree) -> Seq<(Seq<char>, usize, GateFunction)>
    decreases t, 1nat,
{
    children_gates(t, t.data.children@.len() as int) + match t.data.element {
        ConsertTreeElement::Gate(id, i, f) => seq![(id@, i, f)],
        _ => Seq::empty(),
    }
}

/// The gates of the first `n` children of `t`.
pub open spec fn children_gates(t: ConsertTree, n: int) -> Seq<(Seq<char>, usize, GateFunction)>
    decreases t, 0nat, n,
{
    if n <= 0 || n > t.data.children@.len() {
        Seq::empty()
    } else {
        children_gates(t, n - 1) + tree_gates(t.data.children@[n - 1])
    }
}

/// The edges of a tree: those of each subtree in turn, then, for a gate, one
/// from each child to it.
pub open spec fn tree_edges(t: ConsertTree) -> Seq<PropagationView>
    decreases t, 1nat,
{
    children_edges(t, t.data.children@.len() as int) + if t.data.element is Gate {
        child_links(t, t.data.children@.len() as int)
    } else {
        Seq::empty()
    }
}

/// The edges of the first `n` subtrees of `t`.
pub open spec fn children_edges(t: ConsertTree, n: int) -> Seq<PropagationView>
    decreases t, 0nat, n,
{
    if n <= 0 || n > t.data.children@.len() {
        Seq::empty()
    } else {
        children_edges(t, n - 1) + tree_edges(t.data.children@[n - 1])
    }
}

/// The edges from the first `n` children of `t` to its root.
pub open spec fn child_links(t: ConsertTree, n: int) -> Seq<PropagationView>
    decreases n,
{
    if n <= 0 || n > t.data.children@.len() {
        Seq::empty()
    } else {
        child_links(t, n - 1).push(edge(t.data.children@[n - 1].data.element, t.data.element))
    }
}

/// The edge from the root element of a guarantee's tree to the guarantee.
pub open spec fn root_edge(g: Guarantee) -> PropagationView {
    PropagationView {
        source: element_id(g.cst.data.element),
        target: g.id@,
        source_path: "@"@ + element_path(g.cst.data.element),
        target_path: "@guarantees."@ + decimal(g.index as nat),
    }
}

pub open spec fn gate_view(g: Gate) -> (Seq<char>, usize, GateFunction) {
    (g.id@, g.index, g.function)
}

pub open spec fn prop_view(p: GuaranteePropagation) -> PropagationView {
    p@
}

fn make_edge(child: &ConsertTreeElement, parent: &ConsertTreeElement) -> (r: GuaranteePropagation)
    ensures
        r@ == edge(*child, *parent),
{
    let mut source_path = "@".to_owned();
    source_path.append(child.to_path_name().as_str());
    let mut target_path = "@".to_owned();
    target_path.append(parent.to_path_name().as_str());
    GuaranteePropagation::new(child.id(), parent.id(), source_path, target_path)
}

fn collect(t: &ConsertTree, gates: &mut Vec<Gate>, props: &mut Vec<GuaranteePropagation>)
    ensures
        final(gates)@.map_values(|g: Gate| gate_view(g)) == old(gates)@.map_values(
            |g: Gate| gate_view(g),
        ) + tree_gates(*t),
        final(props)@.map_values(|p: GuaranteePropagation| prop_view(p)) == old(props)@.map_values(
            |p: GuaranteePropagation| prop_view(p),
        ) + tree_edges(*t),
    decreases t,
{
    let ghost g0 = gates@.map_values(|g: Gate| gate_view(g));
    let ghost start_props = props@.map_values(|p: GuaranteePropagation| prop_view(p));
    let children = &t.data.children;
    let mut i: usize = 0;
    assert(gates@.map_values(|g: Gate| gate_view(g)) =~= g0 + children_gates(*t, 0));
    assert(props@.map_values(|p: GuaranteePropagation| prop_view(p)) =~= start_props + children_edges(*t, 0));
    while i < children.len()
        invariant
            children == &t.data.children,
            i <= children@.len(),
            gates@.map_values(|g: Gate| gate_view(g)) == g0 + children_gates(*t, i as int),
            props@.map_values(|p: GuaranteePropagation| prop_view(p)) == start_props + children_edges(
                *t,
                i as int,
            ),
        decreases children@.len() - i,
    {
        collect(&children[i], gates, props);
        assert(gates@.map_values(|g: Gate| gate_view(g)) =~= g0 + children_gates(*t, i as int + 1));
        assert(props@.map_values(|p: GuaranteePropagation| prop_view(p)) =~= start_props + children_edges(
            *t,
            i as int + 1,
        ));
        i = i + 1;
    }
    let ghost g1 = gates@.map_values(|g: Gate| gate_view(g));
    match &t.data.element {
        ConsertTreeElement::Gate(id, index, function) => {
            let ghost gb = gates@;
            let gate = Gate::new(id.clone(), *index, *function);
            assert(gate_view(gate) == (id@, *index, *function));
            gates.push(gate);
            assert(gates@.map_values(|g: Gate| gate_view(g)) =~= gb.map_values(|g: Gate| gate_view(g)).push(gate_view(gate)));
            assert(gates@.map_values(|g: Gate| gate_view(g)) =~= g0 + tree_gates(*t));
            let ghost own_start = props@.map_values(|p: GuaranteePropagation| prop_view(p));
            let mut j: usize = 0;
            assert(props@.map_values(|p: GuaranteePropagation| prop_view(p)) =~= own_start + child_links(
                *t,
                0,
            ));
            while j < children.len()
                invariant
                    children == &t.data.children,
                    j <= children@.len(),
                    props@.map_values(|p: GuaranteePropagation| prop_view(p)) == own_start + child_links(
                        *t,
                        j as int,
                    ),
                decreases children@.len() - j,
            {
                let e = make_edge(&children[j].data.element, &t.data.element);
                let ghost pb = props@;
                let ghost ev = e@;
                props.push(e);
                assert(props@.map_values(|p: GuaranteePropagation| prop_view(p)) =~= pb.map_values(|p: GuaranteePropagation| prop_view(p)).push(ev));
                assert(props@.map_values(|p: GuaranteePropagation| prop_view(p)) =~= own_start
                    + child_links(*t, j as int + 1));
                j = j + 1;
            }
            assert(props@.map_values(|p: GuaranteePropagation| prop_view(p)) =~= start_props + tree_edges(
                *t,
            ));
        },
        _ => {
            assert(gates@.map_values(|g: Gate| gate_view(g)) =~= g0 + tree_gates(*t));
            assert(props@.map_values(|p: GuaranteePropagation| prop_view(p)) =~= start_props + tree_edges(
                *t,
            ));
        },
    }
}

impl Guarantee {
    /// The gates of this guarantee's tree and its edges: every edge of the
    /// tree (see [`tree_edges`]), then the one from the root element to this
    /// guarantee.
    pub fn gates_and_guarantee_propagations(&self) -> (r: (Vec<Gate>, Vec<GuaranteePropagation>))
        ensures
            r.0@.map_values(|g: Gate| gate_view(g)) == tree_gates(self.cst),
            r.1@.map_values(|p: GuaranteePropagation| prop_view(p)) == tree_edges(self.cst).push(
                root_edge(*self),
            ),
    {
        let mut gates: Vec<Gate> = Vec::new();
        let mut props: Vec<GuaranteePropagation> = Vec::new();
        assert(gates@.map_values(|g: Gate| gate_view(g)) =~= Seq::empty());
        assert(props@.map_values(|p: GuaranteePropagation| prop_view(p)) =~= Seq::empty());
        collect(&self.cst, &mut gates, &mut props);
        assert(gates@.map_values(|g: Gate| gate_view(g)) =~= tree_gates(self.cst));
        let root = &self.cst.data.element;
        let mut source_path = "@".to_owned();
        source_path.append(root.to_path_name().as_str());
        let target_path = with_decimal("@guarantees.", self.index);
        let ghost before = props@.map_values(|p: GuaranteePropagation| prop_view(p));
        props.push(GuaranteePropagation::new(root.id(), self.id.clone(), source_path, target_path));
        assert(props@.map_values(|p: GuaranteePropagation| prop_view(p)) =~= before.push(
            root_edge(*self),
        ));
        assert(before =~= tree_edges(self.cst));
        (gates, props)
    }
}

} // verus!

verus! {

/// What identifies an element in the structure of a tree.
pub enum ElementKey {
    Evidence(usize),
    Demand(usize),
    Gate(usize, GateFunction),
    Tautology,
    Contradiction,
}

/// The structure of a tree: the key of each element and the order of the
/// children.
pub struct Shape {
    pub key: ElementKey,
    pub children: Seq<Shape>,
}

pub open spec fn key_of(e: ConsertTreeElement) -> ElementKey {
    match e {
        ConsertTreeElement::RuntimeEvidence(i, _) => ElementKey::Evidence(i),
        ConsertTreeElement::Demand(i, _) => ElementKey::Demand(i),
        ConsertTreeElement::Gate(_, i, f) => ElementKey::Gate(i, f),
        ConsertTreeElement::Tautology => ElementKey::Tautology,
        ConsertTreeElement::Contradiction => ElementKey::Contradiction,
    }
}

/// The structure of a tree.
pub open spec fn shape_of(t: ConsertTree) -> Shape
    decreases t, 1nat,
{
    Shape { key: key_of(t.data.element), children: children_shapes(t, t.data.children@.len() as int) }
}

/// The structures of the first `n` children of `t`.
pub open spec fn children_shapes(t: ConsertTree, n: int) -> Seq<Shape>
    decreases t, 0nat, n,
{
    if n <= 0 || n > t.data.children@.len() {
        Seq::empty()
    } else {
        children_shapes(t, n - 1).push(shape_of(t.data.children@[n - 1]))
    }
}

/// A path with its leading `@`, if any, removed.
pub open spec fn strip_at(p: Seq<char>) -> Seq<char> {
    if p.len() > 0 && p[0] == '@' {
        p.drop_first()
    } else {
        p
    }
}

/// `p` starts with `prefix` and the rest denotes an index.
pub open spec fn prefixed_index(p: Seq<char>, prefix: Seq<char>) -> Option<usize> {
    if p.len() >= prefix.len() && p.subrange(0, prefix.len() as int) == prefix {
        crate::text::index_of(p.subrange(prefix.len() as int, p.len() as int))
    } else {
        None
    }
}

/// The function of the first gate of the list with index `i`.
pub open spec fn gate_function_of(gates: Seq<Gate>, i: usize) -> Option<GateFunction>
    decreases gates.len(),
{
    if gates.len() == 0 {
        None
    } else if gates[0].index == i {
        Some(gates[0].function)
    } else {
        gate_function_of(gates.drop_first(), i)
    }
}

/// The key of the element that a path names: `@tautology`,
/// `@contradiction`, or `@gates.<i>`, `@runtimeEvidence.<i>`,
/// `@demands.<i>` for an index that some gate, evidence or demand of the
/// lists has.
pub open spec fn path_key(p: Seq<char>, ev: Seq<Evidence>, gates: Seq<Gate>, dm: Seq<Demand>) -> Option<
    ElementKey,
> {
    let r = strip_at(p);
    if r == "tautology"@ {
        Some(ElementKey::Tautology)
    } else if r == "contradiction"@ {
        Some(ElementKey::Contradiction)
    } else if let Some(i) = prefixed_index(r, "gates."@) {
        match gate_function_of(gates, i) {
            Some(f) => Some(ElementKey::Gate(i, f)),
            None => None,
        }
    } else if let Some(i) = prefixed_index(r, "runtimeEvidence."@) {
        if exists|k: int| 0 <= k < ev.len() && #[trigger] ev[k].index == i {
            Some(ElementKey::Evidence(i))
        } else {
            None
        }
    } else if let Some(i) = prefixed_index(r, "demands."@) {
        if exists|k: int| 0 <= k < dm.len() && #[trigger] dm[k].index == i {
            Some(ElementKey::Demand(i))
        } else {
            None
        }
    } else {
        None
    }
}

/// The structure grown from the element at `path`, with `fuel` as a bound
/// on the depth: the children of an element are grown from the sources of
/// the edges whose target is its path, in the order of the edges.
pub open spec fn grow_spec(
    path: Seq<char>,
    props: Seq<PropagationView>,
    ev: Seq<Evidence>,
    gates: Seq<Gate>,
    dm: Seq<Demand>,
    fuel: nat,
) -> Option<Shape>
    decreases fuel, 1nat, 0int,
{
    if fuel == 0 {
        None
    } else {
        match path_key(path, ev, gates, dm) {
            None => None,
            Some(k) => match grow_children_spec(path, props, ev, gates, dm, (fuel - 1) as nat, props.len() as int) {
                None => None,
                Some(cs) => Some(Shape { key: k, children: cs }),
            },
        }
    }
}

/// The structures grown from the sources of the first `n` edges whose
/// target is `path`.
pub open spec fn grow_children_spec(
    path: Seq<char>,
    props: Seq<PropagationView>,
    ev: Seq<Evidence>,
    gates: Seq<Gate>,
    dm: Seq<Demand>,
    fuel: nat,
    n: int,
) -> Option<Seq<Shape>>
    decreases fuel, 2nat, n,
{
    if n <= 0 || n > props.len() {
        Some(Seq::empty())
    } else {
        match grow_children_spec(path, props, ev, gates, dm, fuel, n - 1) {
            None => None,
            Some(prev) => if props[n - 1].target_path == path {
                match grow_spec(props[n - 1].source_path, props, ev, gates, dm, fuel) {
                    None => None,
                    Some(c) => Some(prev.push(c)),
                }
            } else {
                Some(prev)
            },
        }
    }
}

/// The first gate of the list with index `i`.
pub open spec fn first_gate(gates: Seq<Gate>, i: usize) -> Option<Gate>
    decreases gates.len(),
{
    if gates.len() == 0 {
        None
    } else if gates[0].index == i {
        Some(gates[0])
    } else {
        first_gate(gates.drop_first(), i)
    }
}

/// The first evidence of the list with index `i`.
pub open spec fn first_evidence(ev: Seq<Evidence>, i: usize) -> Option<Evidence>
    decreases ev.len(),
{
    if ev.len() == 0 {
        None
    } else if ev[0].index == i {
        Some(ev[0])
    } else {
        first_evidence(ev.drop_first(), i)
    }
}

/// The first demand of the list with index `i`.
pub open spec fn first_demand(dm: Seq<Demand>, i: usize) -> Option<Demand>
    decreases dm.len(),
{
    if dm.len() == 0 {
        None
    } else if dm[0].index == i {
        Some(dm[0])
    } else {
        first_demand(dm.drop_first(), i)
    }
}

/// An element takes its gate id, or its leaf label, from the first gate,
/// evidence or demand of the lists with its index.
pub open spec fn element_resolved(e: ConsertTreeElement, ev: Seq<Evidence>, gates: Seq<Gate>, dm: Seq<Demand>) -> bool {
    match e {
        ConsertTreeElement::Gate(id, i, _) => first_gate(gates, i) matches Some(g) && g.id == id,
        ConsertTreeElement::RuntimeEvidence(i, l) => first_evidence(ev, i) matches Some(x)
            && l == (crate::elements::LeafLabel { id: x.id, description: x.description }),
        ConsertTreeElement::Demand(i, l) => first_demand(dm, i) matches Some(x) && l == (
        crate::elements::LeafLabel { id: x.id, description: x.description }),
        _ => true,
    }
}

/// Every element of the tree is resolved (see [`element_resolved`]).
pub open spec fn tree_resolved(t: ConsertTree, ev: Seq<Evidence>, gates: Seq<Gate>, dm: Seq<Demand>) -> bool
    decreases t, 1nat,
{
    element_resolved(t.data.element, ev, gates, dm) && children_resolved(
        t,
        ev,
        gates,
        dm,
        t.data.children@.len() as int,
    )
}

pub open spec fn children_resolved(t: ConsertTree, ev: Seq<Evidence>, gates: Seq<Gate>, dm: Seq<Demand>, n: int) -> bool
    decreases t, 0nat, n,
{
    if n <= 0 || n > t.data.children@.len() {
        true
    } else {
        children_resolved(t, ev, gates, dm, n - 1) && tree_resolved(t.data.children@[n - 1], ev, gates, dm)
    }
}

proof fn lemma_children_resolved(t: ConsertTree, ev: Seq<Evidence>, gates: Seq<Gate>, dm: Seq<Demand>, n: int)
    requires
        0 <= n <= t.data.children@.len(),
        forall|q: int| 0 <= q < n ==> #[trigger] tree_resolved(t.data.children@[q], ev, gates, dm),
    ensures
        children_resolved(t, ev, gates, dm, n),
    decreases n,
{
    if n > 0 {
        lemma_children_resolved(t, ev, gates, dm, n - 1);
        assert(tree_resolved(t.data.children@[n - 1], ev, gates, dm));
    }
}

/// The path names a gate, an evidence or a demand by a valid index.
pub open spec fn names_index(r: Seq<char>) -> bool {
    ||| prefixed_index(r, "gates."@) is Some
    ||| prefixed_index(r, "runtimeEvidence."@) is Some
    ||| prefixed_index(r, "demands."@) is Some
}

fn has_prefix<'a>(s: &'a str, prefix: &str) -> (r: Option<&'a str>)
    ensures
        r is Some <==> (s@.len() >= prefix@.len() && s@.subrange(0, prefix@.len() as int)
            == prefix@),
        r matches Some(rest) ==> rest@ == s@.subrange(prefix@.len() as int, s@.len() as int),
{
    let n = s.unicode_len();
    let m = prefix.unicode_len();
    if n < m {
        return None;
    }
    if crate::text::str_eq(s.substring_char(0, m), prefix) {
        Some(s.substring_char(m, n))
    } else {
        None
    }
}

fn path_error(path: &str) -> (r: ConSertError)
    ensures
        r matches ConSertError::Parsing { source: ParsingError::InvalidConsertTreePath(s) } && s@
            == path@,
{
    ConSertError::Parsing { source: ParsingError::InvalidConsertTreePath(path.to_owned()) }
}

fn index_error(kind: &str, index: usize) -> (r: ConSertError)
    ensures
        r matches ConSertError::Parsing { source: ParsingError::WrongIndex(..) },
{
    ConSertError::Parsing {
        source: ParsingError::WrongIndex(kind.to_owned(), with_decimal("", index)),
    }
}

impl ConsertTreeElement {
    /// The element that a path names (see [`path_key`]); a gate takes its id
    /// and function, a leaf its label, from the first gate, evidence or
    /// demand of the lists with the path's index.
    pub fn from_path(
        path: &str,
        runtime_evidence: &Vec<Evidence>,
        gates: &Vec<Gate>,
        demands: &Vec<Demand>,
    ) -> (r: Result<ConsertTreeElement, ConSertError>)
        ensures
            r is Ok <==> path_key(path@, runtime_evidence@, gates@, demands@) is Some,
            r matches Ok(e) ==> key_of(e) == path_key(
                path@,
                runtime_evidence@,
                gates@,
                demands@,
            )->Some_0,
            r matches Ok(e) ==> element_resolved(e, runtime_evidence@, gates@, demands@),
            r is Err && names_index(strip_at(path@)) ==> r matches Err(
                ConSertError::Parsing { source: ParsingError::WrongIndex(..) },
            ),
            r is Err && !names_index(strip_at(path@)) ==> (r matches Err(
                ConSertError::Parsing { source: ParsingError::InvalidConsertTreePath(s) },
            ) && s@ == path@),
    {
        proof {
            reveal_strlit("tautology");
            reveal_strlit("contradiction");
            reveal_strlit("gates.");
            reveal_strlit("runtimeEvidence.");
            reveal_strlit("demands.");
        }
        let n = path.unicode_len();
        let rest = if n > 0 && path.get_char(0) == '@' {
            path.substring_char(1, n)
        } else {
            path
        };
        proof {
            if n > 0 && path@[0] == '@' {
                assert(rest@ =~= path@.drop_first());
            }
        }
        if crate::text::str_eq(rest, "tautology") {
            return Ok(ConsertTreeElement::Tautology);
        }
        if crate::text::str_eq(rest, "contradiction") {
            return Ok(ConsertTreeElement::Contradiction);
        }
        let ghost key = path_key(path@, runtime_evidence@, gates@, demands@);
        if let Some(digits) = has_prefix(rest, "gates.") {
            proof {
                assert(rest@[0] == "gates."@[0]);
                assert(rest@.subrange(0, 16) != "runtimeEvidence."@ || rest@.len() < 16) by {
                    if rest@.len() >= 16 {
                        assert(rest@.subrange(0, 16)[0] != "runtimeEvidence."@[0]);
                    }
                }
                assert(rest@.subrange(0, 8) != "demands."@ || rest@.len() < 8) by {
                    if rest@.len() >= 8 {
                        assert(rest@.subrange(0, 8)[0] != "demands."@[0]);
                    }
                }
            }
            let index = match crate::text::parse_index(digits) {
                Some(i) => i,
                None => {
                    return Err(path_error(path));
                },
            };
            assert(key == match gate_function_of(gates@, index) {
                Some(f) => Some(ElementKey::Gate(index, f)),
                None => None::<ElementKey>,
            });
            let mut k: usize = 0;
            assert(gates@.subrange(0, gates@.len() as int) =~= gates@);
            assert(gates@.subrange(0, gates@.len() as int)[0] == gates@[0]) by {
                if gates@.len() == 0 {
                }
            }
            while k < gates.len()
                invariant
                    key == match gate_function_of(gates@, index) {
                        Some(f) => Some(ElementKey::Gate(index, f)),
                        None => None::<ElementKey>,
                    },
                    key == path_key(path@, runtime_evidence@, gates@, demands@),
                    k <= gates@.len(),
                    gate_function_of(gates@, index) == gate_function_of(
                        gates@.subrange(k as int, gates@.len() as int),
                        index,
                    ),
                    first_gate(gates@, index) == first_gate(
                        gates@.subrange(k as int, gates@.len() as int),
                        index,
                    ),
                decreases gates@.len() - k,
            {
                assert(gates@.subrange(k as int, gates@.len() as int).drop_first() =~= gates@.subrange(
                    k as int + 1,
                    gates@.len() as int,
                ));
                assert(gates@.subrange(k as int, gates@.len() as int)[0] == gates@[k as int]);
                if gates[k].index == index {
                    return Ok(ConsertTreeElement::Gate(gates[k].id.clone(), index, gates[k].function));
                }
                k = k + 1;
            }
            return Err(index_error("gate", index));
        }
        if let Some(digits) = has_prefix(rest, "runtimeEvidence.") {
            proof {
                assert(rest@[0] == "runtimeEvidence."@[0]);
                assert(rest@.subrange(0, 8) != "demands."@ || rest@.len() < 8) by {
                    if rest@.len() >= 8 {
                        assert(rest@.subrange(0, 8)[0] != "demands."@[0]);
                    }
                }
            }
            let index = match crate::text::parse_index(digits) {
                Some(i) => i,
                None => {
                    return Err(path_error(path));
                },
            };
            assert(key == if exists|k: int| 0 <= k < runtime_evidence@.len() && #[trigger] runtime_evidence@[k].index == index {
                Some(ElementKey::Evidence(index))
            } else {
                None
            });
            let mut k: usize = 0;
            assert(runtime_evidence@.subrange(0, runtime_evidence@.len() as int) =~= runtime_evidence@);
            while k < runtime_evidence.len()
                invariant
                    key == if exists|k: int| 0 <= k < runtime_evidence@.len() && #[trigger] runtime_evidence@[k].index == index {
                        Some(ElementKey::Evidence(index))
                    } else {
                        None
                    },
                    key == path_key(path@, runtime_evidence@, gates@, demands@),
                    k <= runtime_evidence@.len(),
                    forall|q: int| 0 <= q < k ==> #[trigger] runtime_evidence@[q].index != index,
                    first_evidence(runtime_evidence@, index) == first_evidence(
                        runtime_evidence@.subrange(k as int, runtime_evidence@.len() as int),
                        index,
                    ),
                decreases runtime_evidence@.len() - k,
            {
                assert(runtime_evidence@.subrange(k as int, runtime_evidence@.len() as int).drop_first()
                    =~= runtime_evidence@.subrange(k as int + 1, runtime_evidence@.len() as int));
                assert(runtime_evidence@.subrange(k as int, runtime_evidence@.len() as int)[0]
                    == runtime_evidence@[k as int]);
                let e = &runtime_evidence[k];
                if e.index == index {
                    return Ok(
                        ConsertTreeElement::RuntimeEvidence(index, crate::elements::leaf_label(&e.id, &e.description)),
                    );
                }
                k = k + 1;
            }
            return Err(index_error("runtime evidence", index));
        }
        if let Some(digits) = has_prefix(rest, "demands.") {
            let index = match crate::text::parse_index(digits) {
                Some(i) => i,
                None => {
                    return Err(path_error(path));
                },
            };
            assert(key == if exists|k: int| 0 <= k < demands@.len() && #[trigger] demands@[k].index == index {
                Some(ElementKey::Demand(index))
            } else {
                None
            });
            let mut k: usize = 0;
            assert(demands@.subrange(0, demands@.len() as int) =~= demands@);
            while k < demands.len()
                invariant
                    key == if exists|k: int| 0 <= k < demands@.len() && #[trigger] demands@[k].index == index {
                        Some(ElementKey::Demand(index))
                    } else {
                        None
                    },
                    key == path_key(path@, runtime_evidence@, gates@, demands@),
                    k <= demands@.len(),
                    forall|q: int| 0 <= q < k ==> #[trigger] demands@[q].index != index,
                    first_demand(demands@, index) == first_demand(
                        demands@.subrange(k as int, demands@.len() as int),
                        index,
                    ),
                decreases demands@.len() - k,
            {
                assert(demands@.subrange(k as int, demands@.len() as int).drop_first() =~= demands@.subrange(
                    k as int + 1,
                    demands@.len() as int,
                ));
                assert(demands@.subrange(k as int, demands@.len() as int)[0] == demands@[k as int]);
                let d = &demands[k];
                if d.index == index {
                    return Ok(ConsertTreeElement::Demand(index, crate::elements::leaf_label(&d.id, &d.description)));
                }
                k = k + 1;
            }
            return Err(index_error("demand", index));
        }
        Err(path_error(path))
    }
}

} // verus!

verus! {

pub open spec fn props_view(props: Seq<GuaranteePropagation>) -> Seq<PropagationView> {
    props.map_values(|p: GuaranteePropagation| prop_view(p))
}

pub(crate) proof fn lemma_children_shapes(t: ConsertTree, n: int)
    requires
        0 <= n <= t.data.children@.len(),
    ensures
        children_shapes(t, n).len() == n,
        forall|q: int| 0 <= q < n ==> #[trigger] children_shapes(t, n)[q] == shape_of(t.data.children@[q]),
    decreases n,
{
    if n > 0 {
        lemma_children_shapes(t, n - 1);
    }
}

proof fn lemma_children_none(
    path: Seq<char>,
    props: Seq<PropagationView>,
    ev: Seq<Evidence>,
    gates: Seq<Gate>,
    dm: Seq<Demand>,
    fuel: nat,
    a: int,
    b: int,
)
    requires
        0 < a <= b <= props.len(),
        grow_children_spec(path, props, ev, gates, dm, fuel, a) is None,
    ensures
        grow_children_spec(path, props, ev, gates, dm, fuel, b) is None,
    decreases b - a,
{
    if a < b {
        lemma_children_none(path, props, ev, gates, dm, fuel, a, b - 1);
    }
}

fn grow(
    path: &str,
    propagations: &Vec<GuaranteePropagation>,
    runtime_evidence: &Vec<Evidence>,
    gates: &Vec<Gate>,
    demands: &Vec<Demand>,
    fuel: usize,
) -> (r: Result<ConsertTree, ConSertError>)
    ensures
        r is Ok <==> grow_spec(
            path@,
            props_view(propagations@),
            runtime_evidence@,
            gates@,
            demands@,
            fuel as nat,
        ) is Some,
        r matches Ok(t) ==> shape_of(t) == grow_spec(
            path@,
            props_view(propagations@),
            runtime_evidence@,
            gates@,
            demands@,
            fuel as nat,
        )->Some_0,
        r matches Ok(t) ==> tree_resolved(t, runtime_evidence@, gates@, demands@),
    decreases fuel,
{
    let ghost pv = props_view(propagations@);
    if fuel == 0 {
        return Err(
            ConSertError::Parsing { source: ParsingError::CyclicPropagation(path.to_owned()) },
        );
    }
    let element = match ConsertTreeElement::from_path(path, runtime_evidence, gates, demands) {
        Ok(e) => e,
        Err(e) => {
            return Err(e);
        },
    };
    let ghost f = (fuel - 1) as nat;
    let mut children: Vec<ConsertTree> = Vec::new();
    let mut k: usize = 0;
    while k < propagations.len()
        invariant
            k <= propagations@.len(),
            pv == props_view(propagations@),
            f == fuel - 1,
            fuel > 0,
            grow_children_spec(path@, pv, runtime_evidence@, gates@, demands@, f, k as int) is Some,
            children@.len() == grow_children_spec(
                path@,
                pv,
                runtime_evidence@,
                gates@,
                demands@,
                f,
                k as int,
            )->Some_0.len(),
            forall|q: int|
                0 <= q < children@.len() ==> #[trigger] tree_resolved(
                    children@[q],
                    runtime_evidence@,
                    gates@,
                    demands@,
                ),
            forall|q: int|
                0 <= q < children@.len() ==> #[trigger] shape_of(children@[q]) == grow_children_spec(
                    path@,
                    pv,
                    runtime_evidence@,
                    gates@,
                    demands@,
                    f,
                    k as int,
                )->Some_0[q],
        decreases propagations@.len() - k,
    {
        let p = &propagations[k];
        assert(pv[k as int] == p@);
        if crate::text::str_eq(p.target_path.as_str(), path) {
            match grow(p.source_path.as_str(), propagations, runtime_evidence, gates, demands, fuel - 1) {
                Ok(c) => {
                    children.push(c);
                },
                Err(e) => {
                    proof {
                        lemma_children_none(
                            path@,
                            pv,
                            runtime_evidence@,
                            gates@,
                            demands@,
                            f,
                            k as int + 1,
                            pv.len() as int,
                        );
                    }
                    return Err(e);
                },
            }
        }
        k = k + 1;
    }
    let ghost cs = grow_children_spec(
        path@,
        pv,
        runtime_evidence@,
        gates@,
        demands@,
        f,
        pv.len() as int,
    )->Some_0;
    let t = Tree::node(element, children);
    proof {
        lemma_children_resolved(t, runtime_evidence@, gates@, demands@, t.data.children@.len() as int);
        lemma_children_shapes(t, t.data.children@.len() as int);
        assert(children_shapes(t, t.data.children@.len() as int) =~= cs);
    }
    Ok(t)
}

/// Grows the tree rooted at the element of `path` from a list of edges:
/// the children of an element are the trees grown from the sources of the
/// edges whose target is its path, in the order of the edges. Each gate
/// takes its id, and each leaf its label, from the first gate, evidence or
/// demand of the lists with its index. A chain of edges longer than the
/// list itself is reported as cyclic.
pub fn grow_cst(
    path: &str,
    propagations: &Vec<GuaranteePropagation>,
    runtime_evidence: &Vec<Evidence>,
    gates: &Vec<Gate>,
    demands: &Vec<Demand>,
) -> (r: Result<ConsertTree, ConSertError>)
    requires
        propagations@.len() < usize::MAX,
    ensures
        r is Ok <==> grow_spec(
            path@,
            props_view(propagations@),
            runtime_evidence@,
            gates@,
            demands@,
            propagations@.len() + 1,
        ) is Some,
        r matches Ok(t) ==> shape_of(t) == grow_spec(
            path@,
            props_view(propagations@),
            runtime_evidence@,
            gates@,
            demands@,
            propagations@.len() + 1,
        )->Some_0,
        r matches Ok(t) ==> tree_resolved(t, runtime_evidence@, gates@, demands@),
{
    grow(path, propagations, runtime_evidence, gates, demands, propagations.len() + 1)
}

} // verus!

verus! {

/// A guarantee that has no dimension of the direction of some demand
/// dimension which is, in that direction, a subset (for binary dimensions:
/// of equal type) does not fulfill the demand.
pub proof fn lemma_unmet_dimension(g: Guarantee, d: Demand, i: int)
    requires
        0 <= i < d.dimensions@.len(),
        forall|j: int|
            0 <= j < g.dimensions@.len() ==> !dimension_fulfills(
                #[trigger] g.dimensions@[j],
                d.dimensions@[i],
            ),
    ensures
        !fulfills_spec(g.dimensions@, d.dimensions@),
{
    assert(!dimension_met(g.dimensions@, d.dimensions@[i]));
}

} // verus!
