use vstd::prelude::*;
use crate::dimension::{subset_of_spec, Dimension, SubsetResult};
use crate::error::{ConSertError, UnitOfMeasureError};
use crate::text::{decimal, with_decimal};

verus! {

/// A runtime-observable fact a component can measure.
#[derive(Debug)]
pub struct Evidence {
    pub id: String,
    pub description: Option<String>,
    pub dimension: Dimension,
    pub index: usize,
}

impl Evidence {
    /// Whether this evidence's dimension is a subset of the other's; a
    /// comparison of incompatible dimensions is an error.
    pub fn fulfills(&self, other: &Evidence) -> (r: Result<bool, ConSertError>)
        ensures
            subset_of_spec(self.dimension, other.dimension) == SubsetResult::True ==> r matches Ok(
                true,
            ),
            subset_of_spec(self.dimension, other.dimension) == SubsetResult::False ==> r matches Ok(
                false,
            ),
            subset_of_spec(self.dimension, other.dimension) == SubsetResult::Incompatible ==> r
                matches Err(
                ConSertError::UnitOfMeasure { source: UnitOfMeasureError::Incompatible },
            ),
    {
        match self.dimension.subset_of(&other.dimension) {
            SubsetResult::True => Ok(true),
            SubsetResult::False => Ok(false),
            SubsetResult::Incompatible => Err(
                ConSertError::UnitOfMeasure { source: UnitOfMeasureError::Incompatible },
            ),
        }
    }

    pub fn new(index: usize, id: String, description: Option<String>, dimension: Dimension) -> (r:
        Evidence)
        ensures
            r == (Evidence { id, description, dimension, index }),
    {
        Evidence { index, id, description, dimension }
    }
}

/// A record that a demand is fulfilled by a guarantee of another contract:
/// the provider's crate name and the guarantee's identifier and index.
#[derive(Debug, PartialEq, Eq)]
pub struct GuaranteeLink {
    pub provider: String,
    pub guarantee: String,
    pub index: usize,
}

/// A requirement placed on another component.
#[derive(Debug)]
pub struct Demand {
    pub id: String,
    pub description: Option<String>,
    pub dimensions: Vec<Dimension>,
    pub index: usize,
    pub linked_guarantees: Vec<GuaranteeLink>,
}

/// Relies on `inflector::Inflector::to_pascal_case`: the result depends on
/// the characters alone.
pub uninterp spec fn pascal_case_of(s: Seq<char>) -> Seq<char>;

/// Relies on `inflector::cases::pascalcase::to_pascal_case` to turn an
/// identifier into PascalCase.
#[verifier::external_body]
fn pascal_case(s: &str) -> (r: String)
    ensures
        r@ == pascal_case_of(s@),
{
    inflector::cases::pascalcase::to_pascal_case(s)
}

impl Demand {
    /// A demand with index zero, one dimension and no links.
    pub fn new(id: String, description: Option<String>, dimension: Dimension) -> (r: Demand)
        ensures
            r.id == id,
            r.description == description,
            r.dimensions@ == seq![dimension],
            r.index == 0,
            r.linked_guarantees@.len() == 0,
    {
        Demand {
            index: 0,
            id,
            description,
            linked_guarantees: Vec::new(),
            dimensions: vec![dimension],
        }
    }

    /// The demand at `index`, named `D<index>` and described by the name of
    /// its node.
    pub fn from_index_and_node(index: usize, node_name: String, dimension: Dimension) -> (r: Demand)
        ensures
            r.id@ == "D"@ + decimal(index as nat),
            r.description == Some(node_name),
            r.dimensions@ == seq![dimension],
            r.index == index,
            r.linked_guarantees@.len() == 0,
    {
        Demand {
            index,
            id: with_decimal("D", index),
            description: Some(node_name),
            linked_guarantees: Vec::new(),
            dimensions: vec![dimension],
        }
    }

    pub fn id(&self) -> (r: String)
        ensures
            r == self.id,
    {
        self.id.clone()
    }

    /// The identifier in PascalCase.
    pub fn identifier(&self) -> (r: String)
        ensures
            r@ == pascal_case_of(self.id@),
    {
        pascal_case(self.id.as_str())
    }

    /// Records that `guarantee` of the contract `crate_name` fulfills this
    /// demand.
    pub fn link(&mut self, crate_name: String, guarantee: String, index: usize)
        ensures
            final(self).linked_guarantees@ == old(self).linked_guarantees@.push(
                GuaranteeLink { provider: crate_name, guarantee, index },
            ),
            final(self).id == old(self).id,
            final(self).description == old(self).description,
            final(self).dimensions == old(self).dimensions,
            final(self).index == old(self).index,
    {
        self.linked_guarantees.push(GuaranteeLink { provider: crate_name, guarantee, index });
    }

    pub fn guarantees(&self) -> (r: &Vec<GuaranteeLink>)
        ensures
            r == &self.linked_guarantees,
    {
        &self.linked_guarantees
    }
}

/// The boolean function of a gate.
#[derive(Copy, Clone, Debug, Eq, PartialEq, Structural)]
pub enum GateFunction {
    And,
    Or,
}

/// A gate of a contract-satisfaction tree.
#[derive(Debug, Eq, PartialEq)]
pub struct Gate {
    pub id: String,
    pub index: usize,
    pub function: GateFunction,
}

impl Gate {
    pub fn new(id: String, index: usize, function: GateFunction) -> (r: Gate)
        ensures
            r == (Gate { id, index, function }),
    {
        Gate { id, index, function }
    }

    pub fn index(&self) -> (r: usize)
        ensures
            r == self.index,
    {
        self.index
    }

    pub fn function(&self) -> (r: GateFunction)
        ensures
            r == self.function,
    {
        self.function
    }
}

/// A rooted tree with ordered children.
#[derive(Debug)]
pub struct Tree<T> {
    pub data: Box<TreeNode<T>>,
}

/// The root of a tree: its element and its subtrees.
#[derive(Debug)]
pub struct TreeNode<T> {
    pub element: T,
    pub children: Vec<Tree<T>>,
}

impl<T> Tree<T> {
    pub fn leaf(element: T) -> (r: Tree<T>)
        ensures
            r.data.element == element,
            r.data.children@.len() == 0,
    {
        Tree { data: Box::new(TreeNode { element, children: Vec::new() }) }
    }

    pub fn node(element: T, children: Vec<Tree<T>>) -> (r: Tree<T>)
        ensures
            r.data.element == element,
            r.data.children == children,
    {
        Tree { data: Box::new(TreeNode { element, children }) }
    }
}

/// What a leaf of a tree shows of the evidence or demand it stands for.
#[derive(Debug, PartialEq, Eq)]
pub struct LeafLabel {
    pub id: String,
    pub description: Option<String>,
}

/// The text that names a leaf in diagnostics: its description, else its id.
pub open spec fn label_text(l: LeafLabel) -> Seq<char> {
    match l.description {
        Some(d) => d@,
        None => l.id@,
    }
}

/// A leaf label with copies of an identifier and a description.
pub(crate) fn leaf_label(id: &String, description: &Option<String>) -> (r: LeafLabel)
    ensures
        r.id == *id,
        r.description == *description,
{
    LeafLabel {
        id: id.clone(),
        description: match description {
            Some(d) => Some(d.clone()),
            None => None,
        },
    }
}

/// An element of a contract-satisfaction tree. A leaf of evidence or of a
/// demand holds the index of its field in the runtime evidence.
#[derive(Debug)]
pub enum ConsertTreeElement {
    RuntimeEvidence(usize, LeafLabel),
    Demand(usize, LeafLabel),
    Gate(String, usize, GateFunction),
    Tautology,
    Contradiction,
}

/// A contract-satisfaction tree.
pub type ConsertTree = Tree<ConsertTreeElement>;

impl ConsertTreeElement {
    /// The leaf for an evidence, at the evidence's index.
    pub fn from_evidence(e: &Evidence) -> (r: ConsertTreeElement)
        ensures
            r == ConsertTreeElement::RuntimeEvidence(
                e.index,
                LeafLabel { id: e.id, description: e.description },
            ),
    {
        ConsertTreeElement::RuntimeEvidence(e.index, leaf_label(&e.id, &e.description))
    }

    /// The leaf for a demand, at the demand's index.
    pub fn from_demand(d: &Demand) -> (r: ConsertTreeElement)
        ensures
            r == ConsertTreeElement::Demand(
                d.index,
                LeafLabel { id: d.id, description: d.description },
            ),
    {
        ConsertTreeElement::Demand(d.index, leaf_label(&d.id, &d.description))
    }

    /// The element for a gate.
    pub fn from_gate(g: &Gate) -> (r: ConsertTreeElement)
        ensures
            r == ConsertTreeElement::Gate(g.id, g.index, g.function),
    {
        ConsertTreeElement::Gate(g.id.clone(), g.index, g.function)
    }
}

} // verus!

verus! {

/// The identifier of an element: the id of its evidence, demand or gate,
/// `Tautology` or `Contradiction`.
pub open spec fn element_id(e: ConsertTreeElement) -> Seq<char> {
    match e {
        ConsertTreeElement::RuntimeEvidence(_, l) => l.id@,
        ConsertTreeElement::Demand(_, l) => l.id@,
        ConsertTreeElement::Gate(id, _, _) => id@,
        ConsertTreeElement::Tautology => "Tautology"@,
        ConsertTreeElement::Contradiction => "Contradiction"@,
    }
}

/// The path name of an element: `runtimeEvidence.<i>`, `demands.<i>`,
/// `gates.<i>`, `tautology` or `contradiction`.
pub open spec fn element_path(e: ConsertTreeElement) -> Seq<char> {
    match e {
        ConsertTreeElement::RuntimeEvidence(i, _) => "runtimeEvidence."@ + decimal(i as nat),
        ConsertTreeElement::Demand(i, _) => "demands."@ + decimal(i as nat),
        ConsertTreeElement::Gate(_, i, _) => "gates."@ + decimal(i as nat),
        ConsertTreeElement::Tautology => "tautology"@,
        ConsertTreeElement::Contradiction => "contradiction"@,
    }
}

impl ConsertTreeElement {
    /// The path name of this element (see [`element_path`]).
    pub fn to_path_name(&self) -> (r: String)
        ensures
            r@ == element_path(*self),
    {
        match self {
            ConsertTreeElement::RuntimeEvidence(i, _) => with_decimal("runtimeEvidence.", *i),
            ConsertTreeElement::Demand(i, _) => with_decimal("demands.", *i),
            ConsertTreeElement::Gate(_, i, _) => with_decimal("gates.", *i),
            ConsertTreeElement::Tautology => "tautology".to_owned(),
            ConsertTreeElement::Contradiction => "contradiction".to_owned(),
        }
    }

    /// The identifier of this element (see [`element_id`]).
    pub fn id(&self) -> (r: String)
        ensures
            r@ == element_id(*self),
    {
        match self {
            ConsertTreeElement::RuntimeEvidence(_, l) => l.id.clone(),
            ConsertTreeElement::Demand(_, l) => l.id.clone(),
            ConsertTreeElement::Gate(id, _, _) => id.clone(),
            ConsertTreeElement::Tautology => "Tautology".to_owned(),
            ConsertTreeElement::Contradiction => "Contradiction".to_owned(),
        }
    }
}


/// A demand as values: its lists as sequences.
pub struct DemandView {
    pub id: Seq<char>,
    pub description: Option<String>,
    pub dimensions: Seq<crate::dimension::DimensionView>,
    pub index: usize,
    pub linked_guarantees: Seq<GuaranteeLink>,
}

pub open spec fn demand_view(d: Demand) -> DemandView {
    DemandView {
        id: d.id@,
        description: d.description,
        dimensions: crate::dimension::dimension_views(d.dimensions@),
        index: d.index,
        linked_guarantees: d.linked_guarantees@,
    }
}

pub open spec fn demand_views(s: Seq<Demand>) -> Seq<DemandView> {
    s.map_values(|d: Demand| demand_view(d))
}

impl GuaranteeLink {
    pub fn copy(&self) -> (r: GuaranteeLink)
        ensures
            r == *self,
    {
        GuaranteeLink {
            provider: self.provider.clone(),
            guarantee: self.guarantee.clone(),
            index: self.index,
        }
    }
}

fn copy_links(v: &Vec<GuaranteeLink>) -> (r: Vec<GuaranteeLink>)
    ensures
        r@ == v@,
{
    let mut r: Vec<GuaranteeLink> = Vec::new();
    let mut i: usize = 0;
    while i < v.len()
        invariant
            i <= v@.len(),
            r@ == v@.subrange(0, i as int),
        decreases v@.len() - i,
    {
        r.push(v[i].copy());
        assert(r@ =~= v@.subrange(0, i as int + 1));
        i = i + 1;
    }
    assert(v@.subrange(0, v@.len() as int) =~= v@);
    r
}

impl Demand {
    /// A copy of this demand, its links included.
    pub fn copy(&self) -> (r: Demand)
        ensures
            demand_view(r) == demand_view(*self),
    {
        Demand {
            id: self.id.clone(),
            description: match &self.description {
                Some(d) => Some(d.clone()),
                None => None,
            },
            dimensions: crate::dimension::copy_dimensions(&self.dimensions),
            index: self.index,
            linked_guarantees: copy_links(&self.linked_guarantees),
        }
    }
}

} // verus!
