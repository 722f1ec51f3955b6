use vstd::prelude::*;
use crate::dimension::categories;
use crate::elements::{label_text, ConsertTree, ConsertTreeElement, GateFunction};

verus! {

/// The boolean value of every evidence field and every demand field.
#[derive(Debug, PartialEq, Eq)]
pub struct RuntimeEvidence {
    pub evidence: Vec<bool>,
    pub demands: Vec<bool>,
}

/// Every leaf of the tree refers to an existing evidence field (below `ne`)
/// or demand field (below `nd`).
pub open spec fn indices_within(t: ConsertTree, ne: nat, nd: nat) -> bool
    decreases t, 1nat,
{
    &&& match t.data.element {
        ConsertTreeElement::RuntimeEvidence(i, _) => i < ne,
        ConsertTreeElement::Demand(i, _) => i < nd,
        _ => true,
    }
    &&& children_indices_within(t, ne, nd, t.data.children@.len() as int)
}

/// The first `n` children of `t` meet [`indices_within`].
pub open spec fn children_indices_within(t: ConsertTree, ne: nat, nd: nat, n: int) -> bool
    decreases t, 0nat, n,
{
    if n <= 0 || n > t.data.children@.len() {
        true
    } else {
        children_indices_within(t, ne, nd, n - 1) && indices_within(t.data.children@[n - 1], ne, nd)
    }
}

/// The value of a tree on the runtime evidence: constants for tautology and
/// contradiction, the field of a leaf, the conjunction or disjunction of the
/// children of a gate (true for an empty `And`, false for an empty `Or`).
pub open spec fn evaluate_spec(t: ConsertTree, rte: RuntimeEvidence) -> bool
    decreases t, 1nat,
{
    match t.data.element {
        ConsertTreeElement::Tautology => true,
        ConsertTreeElement::Contradiction => false,
        ConsertTreeElement::RuntimeEvidence(i, _) => rte.evidence@[i as int],
        ConsertTreeElement::Demand(i, _) => rte.demands@[i as int],
        ConsertTreeElement::Gate(_, _, GateFunction::And) => all_children(
            t,
            rte,
            t.data.children@.len() as int,
        ),
        ConsertTreeElement::Gate(_, _, GateFunction::Or) => any_child(
            t,
            rte,
            t.data.children@.len() as int,
        ),
    }
}

/// All of the first `n` children of `t` evaluate to true.
pub open spec fn all_children(t: ConsertTree, rte: RuntimeEvidence, n: int) -> bool
    decreases t, 0nat, n,
{
    if n <= 0 || n > t.data.children@.len() {
        true
    } else {
        all_children(t, rte, n - 1) && evaluate_spec(t.data.children@[n - 1], rte)
    }
}

/// Some of the first `n` children of `t` evaluates to true.
pub open spec fn any_child(t: ConsertTree, rte: RuntimeEvidence, n: int) -> bool
    decreases t, 0nat, n,
{
    if n <= 0 || n > t.data.children@.len() {
        false
    } else {
        any_child(t, rte, n - 1) || evaluate_spec(t.data.children@[n - 1], rte)
    }
}

} // verus!

verus! {

proof fn lemma_children_indices_upto(t: ConsertTree, ne: nat, nd: nat, n: int)
    requires
        0 <= n <= t.data.children@.len(),
        children_indices_within(t, ne, nd, n),
    ensures
        forall|k: int| 0 <= k < n ==> #[trigger] indices_within(t.data.children@[k], ne, nd),
    decreases n,
{
    if n > 0 {
        lemma_children_indices_upto(t, ne, nd, n - 1);
    }
}

proof fn lemma_children_indices(t: ConsertTree, ne: nat, nd: nat)
    requires
        indices_within(t, ne, nd),
    ensures
        forall|k: int|
            0 <= k < t.data.children@.len() ==> #[trigger] indices_within(
                t.data.children@[k],
                ne,
                nd,
            ),
{
    lemma_children_indices_upto(t, ne, nd, t.data.children@.len() as int);
}

/// Evaluates a tree on the runtime evidence.
pub fn evaluate(t: &ConsertTree, rte: &RuntimeEvidence) -> (r: bool)
    requires
        indices_within(*t, rte.evidence@.len(), rte.demands@.len()),
    ensures
        r == evaluate_spec(*t, *rte),
    decreases t,
{
    match &t.data.element {
        ConsertTreeElement::Tautology => true,
        ConsertTreeElement::Contradiction => false,
        ConsertTreeElement::RuntimeEvidence(i, _) => rte.evidence[*i],
        ConsertTreeElement::Demand(i, _) => rte.demands[*i],
        ConsertTreeElement::Gate(_, _, function) => {
            let children = &t.data.children;
            let is_and = match function {
                GateFunction::And => true,
                GateFunction::Or => false,
            };
            let mut acc = is_and;
            let mut i: usize = 0;
            proof {
                lemma_children_indices(*t, rte.evidence@.len(), rte.demands@.len());
            }
            while i < children.len()
                invariant
                    i <= children@.len(),
                    children == &t.data.children,
                    forall|k: int| 0 <= k < children@.len() ==> #[trigger] indices_within(
                        children@[k],
                        rte.evidence@.len(),
                        rte.demands@.len(),
                    ),
                    is_and ==> acc == all_children(*t, *rte, i as int),
                    !is_and ==> acc == any_child(*t, *rte, i as int),
                decreases children@.len() - i,
            {
                let v = evaluate(&children[i], rte);
                if is_and {
                    acc = acc && v;
                } else {
                    acc = acc || v;
                }
                i = i + 1;
            }
            acc
        },
    }
}

/// The texts of the leaves whose field is false, anywhere in the tree,
/// whatever the gates above them.
pub open spec fn failures_spec(t: ConsertTree, rte: RuntimeEvidence) -> Set<Seq<char>>
    decreases t, 1nat,
{
    match t.data.element {
        ConsertTreeElement::RuntimeEvidence(i, l) => if rte.evidence@[i as int] {
            Set::empty()
        } else {
            set![label_text(l)]
        },
        ConsertTreeElement::Demand(i, l) => if rte.demands@[i as int] {
            Set::empty()
        } else {
            set![label_text(l)]
        },
        ConsertTreeElement::Gate(..) => children_failures(t, rte, t.data.children@.len() as int),
        _ => Set::empty(),
    }
}

/// The failures of the first `n` children of `t`.
pub open spec fn children_failures(t: ConsertTree, rte: RuntimeEvidence, n: int) -> Set<
    Seq<char>,
>
    decreases t, 0nat, n,
{
    if n <= 0 || n > t.data.children@.len() {
        Set::empty()
    } else {
        children_failures(t, rte, n - 1).union(failures_spec(t.data.children@[n - 1], rte))
    }
}

/// No two strings of the list are equal.
pub open spec fn distinct_names(v: Seq<String>) -> bool {
    forall|i: int, j: int| 0 <= i < j < v.len() ==> v[i]@ != v[j]@
}

fn insert_name(out: &mut Vec<String>, s: String)
    requires
        distinct_names(old(out)@),
    ensures
        distinct_names(final(out)@),
        categories(final(out)@) == categories(old(out)@).insert(s@),
{
    if !crate::dimension::contains_string(out, &s) {
        let ghost prev = out@;
        let ghost v = s@;
        let ghost s_copy = s;
        proof {
            assert forall|k: int| 0 <= k < prev.len() implies prev[k]@ != v by {
                assert(crate::dimension::names(prev)[k] == prev[k]@);
                if prev[k]@ == v {
                    assert(crate::dimension::names(prev).contains(v));
                }
            }
        }
        out.push(s);
        proof {
            crate::dimension::lemma_categories_push(prev, s_copy);
        }
    } else {
        proof {
            assert(categories(out@) =~= categories(out@).insert(s@));
        }
    }
}

fn leaf_text(l: &crate::elements::LeafLabel) -> (r: String)
    ensures
        r@ == label_text(*l),
{
    match &l.description {
        Some(d) => d.clone(),
        None => l.id.clone(),
    }
}

fn collect_failures(t: &ConsertTree, rte: &RuntimeEvidence, out: &mut Vec<String>)
    requires
        indices_within(*t, rte.evidence@.len(), rte.demands@.len()),
        distinct_names(old(out)@),
    ensures
        distinct_names(final(out)@),
        categories(final(out)@) == categories(old(out)@).union(failures_spec(*t, *rte)),
    decreases t,
{
    match &t.data.element {
        ConsertTreeElement::RuntimeEvidence(i, l) => {
            if !rte.evidence[*i] {
                insert_name(out, leaf_text(l));
            } else {
                assert(categories(out@) =~= categories(out@).union(Set::empty()));
            }
        },
        ConsertTreeElement::Demand(i, l) => {
            if !rte.demands[*i] {
                insert_name(out, leaf_text(l));
            } else {
                assert(categories(out@) =~= categories(out@).union(Set::empty()));
            }
        },
        ConsertTreeElement::Gate(..) => {
            let ghost start = categories(out@);
            let children = &t.data.children;
            let mut i: usize = 0;
            assert(categories(out@) =~= start.union(children_failures(*t, *rte, 0)));
            proof {
                lemma_children_indices(*t, rte.evidence@.len(), rte.demands@.len());
            }
            while i < children.len()
                invariant
                    i <= children@.len(),
                    children == &t.data.children,
                    forall|k: int| 0 <= k < children@.len() ==> #[trigger] indices_within(
                        children@[k],
                        rte.evidence@.len(),
                        rte.demands@.len(),
                    ),
                    distinct_names(out@),
                    categories(out@) == start.union(children_failures(*t, *rte, i as int)),
                decreases children@.len() - i,
            {
                collect_failures(&children[i], rte, out);
                proof {
                    assert(categories(out@) =~= start.union(
                        children_failures(*t, *rte, i as int + 1),
                    ));
                }
                i = i + 1;
            }
        },
        _ => {
            assert(categories(out@) =~= categories(out@).union(Set::empty()));
        },
    }
}

/// The texts (description, else id) of every leaf of the tree whose field
/// is false, each once.
pub fn failures(t: &ConsertTree, rte: &RuntimeEvidence) -> (r: Vec<String>)
    requires
        indices_within(*t, rte.evidence@.len(), rte.demands@.len()),
    ensures
        distinct_names(r@),
        categories(r@) == failures_spec(*t, *rte),
{
    let mut out: Vec<String> = Vec::new();
    assert(categories(out@) =~= Set::<Seq<char>>::empty());
    collect_failures(t, rte, &mut out);
    assert(categories(out@) =~= failures_spec(*t, *rte));
    out
}

} // verus!

verus! {

/// Gate identities: an `And` gate without children holds and an `Or` gate
/// without children does not; a tautology always holds and reports no
/// failure; a contradiction never holds.
pub proof fn lemma_gate_identities(t: ConsertTree, rte: RuntimeEvidence)
    ensures
        t.data.element matches ConsertTreeElement::Gate(_, _, GateFunction::And)
            && t.data.children@.len() == 0 ==> evaluate_spec(t, rte),
        t.data.element matches ConsertTreeElement::Gate(_, _, GateFunction::Or)
            && t.data.children@.len() == 0 ==> !evaluate_spec(t, rte),
        t.data.element is Tautology ==> evaluate_spec(t, rte) && failures_spec(t, rte)
            == Set::<Seq<char>>::empty(),
        t.data.element is Contradiction ==> !evaluate_spec(t, rte),
{
}

} // verus!
