use vstd::prelude::*;
use crate::elements::{element_path, ConsertTree, ConsertTreeElement, Demand, Evidence, Gate, GateFunction};
use crate::guarantees::{
    children_edges, children_shapes, child_links, gate_function_of, grow_children_spec, grow_spec,
    path_key, prefixed_index, shape_of, strip_at, tree_edges, PropagationView, Shape,
    key_of,
};
use crate::text::{decimal, index_of, lemma_decimal_round_trip};

verus! {

/// The source paths of the edges of `props` whose target path is `q`, in
/// order.
pub open spec fn sources_to(props: Seq<PropagationView>, q: Seq<char>) -> Seq<Seq<char>>
    decreases props.len(),
{
    if props.len() == 0 {
        Seq::empty()
    } else {
        sources_to(props.drop_last(), q) + if props.last().target_path == q {
            seq![props.last().source_path]
        } else {
            Seq::empty()
        }
    }
}

proof fn lemma_sources_concat(a: Seq<PropagationView>, b: Seq<PropagationView>, q: Seq<char>)
    ensures
        sources_to(a + b, q) == sources_to(a, q) + sources_to(b, q),
    decreases b.len(),
{
    if b.len() == 0 {
        assert(a + b =~= a);
        assert(sources_to(b, q) =~= Seq::<Seq<char>>::empty());
        assert(sources_to(a, q) + sources_to(b, q) =~= sources_to(a, q));
    } else {
        lemma_sources_concat(a, b.drop_last(), q);
        assert((a + b).drop_last() =~= a + b.drop_last());
        assert((a + b).last() == b.last());
        assert(sources_to(a + b, q) =~= sources_to(a, q) + sources_to(b, q));
    }
}

/// Grows each source path in turn.
pub open spec fn grow_all(
    srcs: Seq<Seq<char>>,
    props: Seq<PropagationView>,
    ev: Seq<Evidence>,
    gates: Seq<Gate>,
    dm: Seq<Demand>,
    fuel: nat,
) -> Option<Seq<Shape>>
    decreases srcs.len(),
{
    if srcs.len() == 0 {
        Some(Seq::empty())
    } else {
        match grow_all(srcs.drop_last(), props, ev, gates, dm, fuel) {
            None => None,
            Some(prev) => match grow_spec(srcs.last(), props, ev, gates, dm, fuel) {
                None => None,
                Some(c) => Some(prev.push(c)),
            },
        }
    }
}

proof fn lemma_grow_children_is_grow_all(
    q: Seq<char>,
    props: Seq<PropagationView>,
    ev: Seq<Evidence>,
    gates: Seq<Gate>,
    dm: Seq<Demand>,
    fuel: nat,
    n: int,
)
    requires
        0 <= n <= props.len(),
    ensures
        grow_children_spec(q, props, ev, gates, dm, fuel, n) == grow_all(
            sources_to(props.subrange(0, n), q),
            props,
            ev,
            gates,
            dm,
            fuel,
        ),
    decreases n,
{
    if n > 0 {
        lemma_grow_children_is_grow_all(q, props, ev, gates, dm, fuel, n - 1);
        let s = props.subrange(0, n);
        assert(s.drop_last() =~= props.subrange(0, n - 1));
        assert(s.last() == props[n - 1]);
        if props[n - 1].target_path == q {
            let srcs = sources_to(s, q);
            assert(srcs.drop_last() =~= sources_to(props.subrange(0, n - 1), q));
            assert(srcs.last() == props[n - 1].source_path);
        } else {
            assert(sources_to(s, q) =~= sources_to(props.subrange(0, n - 1), q));
        }
    } else {
        assert(sources_to(props.subrange(0, 0), q) =~= Seq::<Seq<char>>::empty());
    }
}

/// The paths, each with a leading `@`, of the first `n` children of `t`.
pub open spec fn child_paths(t: ConsertTree, n: int) -> Seq<Seq<char>>
    decreases n,
{
    if n <= 0 || n > t.data.children@.len() {
        Seq::empty()
    } else {
        child_paths(t, n - 1).push("@"@ + element_path(t.data.children@[n - 1].data.element))
    }
}

/// The child paths of every gate of `t` whose path (with `@`) is `q`, in
/// the order in which the edges of `t` list them.
pub open spec fn gate_children_paths(t: ConsertTree, q: Seq<char>) -> Seq<Seq<char>>
    decreases t, 1nat,
{
    children_gcp(t, q, t.data.children@.len() as int) + if t.data.element is Gate && "@"@
        + element_path(t.data.element) == q {
        child_paths(t, t.data.children@.len() as int)
    } else {
        Seq::empty()
    }
}

pub open spec fn children_gcp(t: ConsertTree, q: Seq<char>, n: int) -> Seq<Seq<char>>
    decreases t, 0nat, n,
{
    if n <= 0 || n > t.data.children@.len() {
        Seq::empty()
    } else {
        children_gcp(t, q, n - 1) + gate_children_paths(t.data.children@[n - 1], q)
    }
}

proof fn lemma_sources_child_links(t: ConsertTree, q: Seq<char>, n: int)
    requires
        0 <= n <= t.data.children@.len(),
    ensures
        sources_to(child_links(t, n), q) == if "@"@ + element_path(t.data.element) == q {
            child_paths(t, n)
        } else {
            Seq::empty()
        },
    decreases n,
{
    if n > 0 {
        lemma_sources_child_links(t, q, n - 1);
        assert(child_links(t, n).drop_last() =~= child_links(t, n - 1));
        if "@"@ + element_path(t.data.element) == q {
            assert(sources_to(child_links(t, n), q) =~= child_paths(t, n));
        } else {
            assert(sources_to(child_links(t, n), q) =~= Seq::<Seq<char>>::empty());
        }
    }
}

/// The sources of the edges of a tree that end at `q` are the children of
/// the gates whose path is `q`.
proof fn lemma_sources_tree_edges(t: ConsertTree, q: Seq<char>)
    ensures
        sources_to(tree_edges(t), q) == gate_children_paths(t, q),
    decreases t, 1nat,
{
    let len = t.data.children@.len() as int;
    lemma_sources_children_edges(t, q, len);
    if t.data.element is Gate {
        lemma_sources_concat(children_edges(t, len), child_links(t, len), q);
        lemma_sources_child_links(t, q, len);
    } else {
        assert(children_edges(t, len) + Seq::<PropagationView>::empty() =~= children_edges(t, len));
        assert(gate_children_paths(t, q) =~= children_gcp(t, q, len));
    }
    assert(sources_to(tree_edges(t), q) =~= gate_children_paths(t, q));
}

proof fn lemma_sources_children_edges(t: ConsertTree, q: Seq<char>, n: int)
    requires
        0 <= n <= t.data.children@.len(),
    ensures
        sources_to(children_edges(t, n), q) == children_gcp(t, q, n),
    decreases t, 0nat, n,
{
    if n > 0 {
        lemma_sources_children_edges(t, q, n - 1);
        lemma_sources_tree_edges(t.data.children@[n - 1], q);
        lemma_sources_concat(children_edges(t, n - 1), tree_edges(t.data.children@[n - 1]), q);
    } else {
        assert(sources_to(children_edges(t, n), q) =~= Seq::<Seq<char>>::empty());
    }
}


/// How many gates of `t` have the path `q` (with its `@`).
pub open spec fn gate_count(t: ConsertTree, q: Seq<char>) -> nat
    decreases t, 1nat,
{
    children_count(t, q, t.data.children@.len() as int) + if t.data.element is Gate && "@"@
        + element_path(t.data.element) == q {
        1nat
    } else {
        0nat
    }
}

pub open spec fn children_count(t: ConsertTree, q: Seq<char>, n: int) -> nat
    decreases t, 0nat, n,
{
    if n <= 0 || n > t.data.children@.len() {
        0
    } else {
        children_count(t, q, n - 1) + gate_count(t.data.children@[n - 1], q)
    }
}

proof fn lemma_no_gate_no_paths(t: ConsertTree, q: Seq<char>)
    requires
        gate_count(t, q) == 0,
    ensures
        gate_children_paths(t, q) == Seq::<Seq<char>>::empty(),
    decreases t, 1nat,
{
    lemma_no_gate_no_paths_children(t, q, t.data.children@.len() as int);
    assert(gate_children_paths(t, q) =~= Seq::<Seq<char>>::empty());
}

proof fn lemma_no_gate_no_paths_children(t: ConsertTree, q: Seq<char>, n: int)
    requires
        0 <= n <= t.data.children@.len(),
        children_count(t, q, n) == 0,
    ensures
        children_gcp(t, q, n) == Seq::<Seq<char>>::empty(),
    decreases t, 0nat, n,
{
    if n > 0 {
        lemma_no_gate_no_paths_children(t, q, n - 1);
        lemma_no_gate_no_paths(t.data.children@[n - 1], q);
        assert(children_gcp(t, q, n) =~= Seq::<Seq<char>>::empty());
    }
}

proof fn lemma_children_count_ge(t: ConsertTree, q: Seq<char>, n: int, k: int)
    requires
        0 <= k < n <= t.data.children@.len(),
    ensures
        children_count(t, q, n) >= gate_count(t.data.children@[k], q),
    decreases n,
{
    if k < n - 1 {
        lemma_children_count_ge(t, q, n - 1, k);
    }
}

proof fn lemma_only_child(t: ConsertTree, q: Seq<char>, n: int, k: int)
    requires
        0 <= k < n <= t.data.children@.len(),
        children_count(t, q, n) == gate_count(t.data.children@[k], q),
    ensures
        children_gcp(t, q, n) == gate_children_paths(t.data.children@[k], q),
    decreases n,
{
    if k == n - 1 {
        lemma_no_gate_no_paths_children(t, q, n - 1);
        assert(children_gcp(t, q, n) =~= gate_children_paths(t.data.children@[k], q));
    } else {
        lemma_children_count_ge(t, q, n - 1, k);
        lemma_only_child(t, q, n - 1, k);
        lemma_no_gate_no_paths(t.data.children@[n - 1], q);
        assert(children_gcp(t, q, n) =~= gate_children_paths(t.data.children@[k], q));
    }
}

/// The lists hold what the element's path names: a gate of the element's
/// index with its function, an evidence or a demand of its index.
pub open spec fn resolvable(e: ConsertTreeElement, ev: Seq<Evidence>, gates: Seq<Gate>, dm: Seq<Demand>) -> bool {
    match e {
        ConsertTreeElement::Gate(_, i, f) => gate_function_of(gates, i) == Some(f),
        ConsertTreeElement::RuntimeEvidence(i, _) => exists|k: int|
            0 <= k < ev.len() && #[trigger] ev[k].index == i,
        ConsertTreeElement::Demand(i, _) => exists|k: int|
            0 <= k < dm.len() && #[trigger] dm[k].index == i,
        _ => true,
    }
}

/// Every element of the tree is resolvable and only gates have children.
pub open spec fn regrowable(t: ConsertTree, ev: Seq<Evidence>, gates: Seq<Gate>, dm: Seq<Demand>) -> bool
    decreases t, 1nat,
{
    &&& resolvable(t.data.element, ev, gates, dm)
    &&& (t.data.element !is Gate ==> t.data.children@.len() == 0)
    &&& children_regrowable(t, ev, gates, dm, t.data.children@.len() as int)
}

pub open spec fn children_regrowable(
    t: ConsertTree,
    ev: Seq<Evidence>,
    gates: Seq<Gate>,
    dm: Seq<Demand>,
    n: int,
) -> bool
    decreases t, 0nat, n,
{
    if n <= 0 || n > t.data.children@.len() {
        true
    } else {
        children_regrowable(t, ev, gates, dm, n - 1) && regrowable(t.data.children@[n - 1], ev, gates, dm)
    }
}

proof fn lemma_children_regrowable(t: ConsertTree, ev: Seq<Evidence>, gates: Seq<Gate>, dm: Seq<Demand>, n: int, k: int)
    requires
        0 <= k < n <= t.data.children@.len(),
        children_regrowable(t, ev, gates, dm, n),
    ensures
        regrowable(t.data.children@[k], ev, gates, dm),
    decreases n,
{
    if k < n - 1 {
        lemma_children_regrowable(t, ev, gates, dm, n - 1, k);
    }
}

/// The depth of a tree.
pub open spec fn height(t: ConsertTree) -> nat
    decreases t, 1nat,
{
    1 + children_height(t, t.data.children@.len() as int)
}

pub open spec fn children_height(t: ConsertTree, n: int) -> nat
    decreases t, 0nat, n,
{
    if n <= 0 || n > t.data.children@.len() {
        0
    } else {
        let a = children_height(t, n - 1);
        let b = height(t.data.children@[n - 1]);
        if a >= b {
            a
        } else {
            b
        }
    }
}

proof fn lemma_child_height(t: ConsertTree, n: int, k: int)
    requires
        0 <= k < n <= t.data.children@.len(),
    ensures
        children_height(t, n) >= height(t.data.children@[k]),
    decreases n,
{
    if k < n - 1 {
        lemma_child_height(t, n - 1, k);
    }
}

proof fn lemma_child_links_len(t: ConsertTree, n: int)
    requires
        0 <= n <= t.data.children@.len(),
    ensures
        child_links(t, n).len() == n,
    decreases n,
{
    if n > 0 {
        lemma_child_links_len(t, n - 1);
    }
}

/// A tree whose non-gates have no children is no deeper than its edges
/// are many, plus one.
proof fn lemma_height_bound(t: ConsertTree, ev: Seq<Evidence>, gates: Seq<Gate>, dm: Seq<Demand>)
    requires
        regrowable(t, ev, gates, dm),
    ensures
        height(t) <= tree_edges(t).len() + 1,
    decreases t, 1nat,
{
    let len = t.data.children@.len() as int;
    lemma_children_height_bound(t, ev, gates, dm, len);
    if t.data.element is Gate {
        lemma_child_links_len(t, len);
    }
}

proof fn lemma_children_height_bound(t: ConsertTree, ev: Seq<Evidence>, gates: Seq<Gate>, dm: Seq<Demand>, n: int)
    requires
        0 <= n <= t.data.children@.len(),
        children_regrowable(t, ev, gates, dm, n),
    ensures
        children_height(t, n) <= children_edges(t, n).len() + n,
    decreases t, 0nat, n,
{
    if n > 0 {
        lemma_children_height_bound(t, ev, gates, dm, n - 1);
        lemma_height_bound(t.data.children@[n - 1], ev, gates, dm);
    }
}


proof fn lemma_index_of_decimal(i: usize)
    ensures
        index_of(decimal(i as nat)) == Some(i),
{
    lemma_decimal_round_trip(i as nat);
}

proof fn lemma_prefixed(prefix: Seq<char>, i: usize)
    ensures
        prefixed_index(prefix + decimal(i as nat), prefix) == Some(i),
{
    let p = prefix + decimal(i as nat);
    assert(p.subrange(0, prefix.len() as int) =~= prefix);
    assert(p.subrange(prefix.len() as int, p.len() as int) =~= decimal(i as nat));
    lemma_index_of_decimal(i);
}

proof fn lemma_not_prefixed(p: Seq<char>, prefix: Seq<char>)
    requires
        p.len() > 0,
        prefix.len() > 0,
        p[0] != prefix[0],
    ensures
        prefixed_index(p, prefix) is None,
{
    if p.len() >= prefix.len() {
        assert(p.subrange(0, prefix.len() as int)[0] != prefix[0]);
    }
}

/// The path of an element names that element again.
proof fn lemma_path_key(e: ConsertTreeElement, ev: Seq<Evidence>, gates: Seq<Gate>, dm: Seq<Demand>)
    requires
        resolvable(e, ev, gates, dm),
    ensures
        path_key("@"@ + element_path(e), ev, gates, dm) == Some(key_of(e)),
{
    reveal_strlit("@");
    reveal_strlit("tautology");
    reveal_strlit("contradiction");
    reveal_strlit("gates.");
    reveal_strlit("runtimeEvidence.");
    reveal_strlit("demands.");
    let p = element_path(e);
    assert(strip_at("@"@ + p) =~= p);
    match e {
        ConsertTreeElement::Gate(_, i, _) => {
            assert(p[0] == 'g');
            assert(p != "tautology"@ && p != "contradiction"@);
            lemma_prefixed("gates."@, i);
        },
        ConsertTreeElement::RuntimeEvidence(i, _) => {
            assert(p[0] == 'r');
            assert(p != "tautology"@ && p != "contradiction"@);
            lemma_not_prefixed(p, "gates."@);
            lemma_prefixed("runtimeEvidence."@, i);
        },
        ConsertTreeElement::Demand(i, _) => {
            assert(p[0] == 'd');
            assert(p != "tautology"@ && p != "contradiction"@);
            lemma_not_prefixed(p, "gates."@);
            lemma_not_prefixed(p, "runtimeEvidence."@);
            lemma_prefixed("demands."@, i);
        },
        ConsertTreeElement::Tautology => {},
        ConsertTreeElement::Contradiction => {
            assert("contradiction"@ != "tautology"@) by {
                assert("contradiction"@[0] != "tautology"@[0]);
            }
        },
    }
}

/// Only gates have a path whose first character is `g`.
proof fn lemma_path_initial(e: ConsertTreeElement)
    ensures
        ("@"@ + element_path(e)).len() > 2,
        ("@"@ + element_path(e))[1] == 'g' <==> e is Gate,
        e is Gate ==> ("@"@ + element_path(e))[2] == 'a',
{
    reveal_strlit("@");
    reveal_strlit("tautology");
    reveal_strlit("contradiction");
    reveal_strlit("gates.");
    reveal_strlit("runtimeEvidence.");
    reveal_strlit("demands.");
    lemma_decimal_round_trip(0);
}

proof fn lemma_no_sources(props: Seq<PropagationView>, q: Seq<char>)
    requires
        forall|k: int| 0 <= k < props.len() ==> #[trigger] props[k].target_path != q,
    ensures
        sources_to(props, q) == Seq::<Seq<char>>::empty(),
    decreases props.len(),
{
    if props.len() > 0 {
        lemma_no_sources(props.drop_last(), q);
        assert(props.last() == props[props.len() - 1]);
        assert(sources_to(props, q) =~= Seq::<Seq<char>>::empty());
    }
}

/// The conditions under which a subtree grows back from the edges.
pub open spec fn grows_back(t: ConsertTree, props: Seq<PropagationView>, ev: Seq<Evidence>, gates: Seq<Gate>, dm: Seq<Demand>) -> bool {
    &&& regrowable(t, ev, gates, dm)
    &&& forall|q: Seq<char>| #[trigger] gate_count(t, q) <= 1
    &&& forall|q: Seq<char>| gate_count(t, q) == 1 ==> #[trigger] sources_to(props, q) == gate_children_paths(t, q)
    &&& forall|k: int| 0 <= k < props.len() ==> (#[trigger] props[k].target_path).len() > 1 && props[k].target_path[1] == 'g'
}

proof fn lemma_grow_back(t: ConsertTree, props: Seq<PropagationView>, ev: Seq<Evidence>, gates: Seq<Gate>, dm: Seq<Demand>, fuel: nat)
    requires
        grows_back(t, props, ev, gates, dm),
        fuel >= height(t),
    ensures
        grow_spec("@"@ + element_path(t.data.element), props, ev, gates, dm, fuel) == Some(shape_of(t)),
    decreases t, 1nat,
{
    let q = "@"@ + element_path(t.data.element);
    let len = t.data.children@.len() as int;
    lemma_path_key(t.data.element, ev, gates, dm);
    lemma_grow_children_is_grow_all(q, props, ev, gates, dm, (fuel - 1) as nat, props.len() as int);
    assert(props.subrange(0, props.len() as int) =~= props);
    lemma_path_initial(t.data.element);
    if t.data.element is Gate {
        assert(gate_count(t, q) >= 1);
        assert(gate_count(t, q) <= 1);
        assert(children_count(t, q, len) == 0);
        lemma_no_gate_no_paths_children(t, q, len);
        assert(sources_to(props, q) == gate_children_paths(t, q));
        assert(sources_to(props, q) =~= child_paths(t, len));
    } else {
        assert forall|k: int| 0 <= k < props.len() implies #[trigger] props[k].target_path != q by {
            assert(props[k].target_path[1] == 'g');
        }
        lemma_no_sources(props, q);
        assert(child_paths(t, len) =~= Seq::<Seq<char>>::empty());
    }
    lemma_grow_children_back(t, props, ev, gates, dm, (fuel - 1) as nat, len);
}

proof fn lemma_grow_children_back(
    t: ConsertTree,
    props: Seq<PropagationView>,
    ev: Seq<Evidence>,
    gates: Seq<Gate>,
    dm: Seq<Demand>,
    fuel: nat,
    n: int,
)
    requires
        0 <= n <= t.data.children@.len(),
        grows_back(t, props, ev, gates, dm),
        fuel + 1 >= height(t),
    ensures
        grow_all(child_paths(t, n), props, ev, gates, dm, fuel) == Some(children_shapes(t, n)),
    decreases t, 0nat, n,
{
    if n > 0 {
        let len = t.data.children@.len() as int;
        let c = t.data.children@[n - 1];
        lemma_grow_children_back(t, props, ev, gates, dm, fuel, n - 1);
        lemma_children_regrowable(t, ev, gates, dm, len, n - 1);
        lemma_child_height(t, len, n - 1);
        assert forall|q: Seq<char>| #[trigger] gate_count(c, q) <= 1 by {
            lemma_children_count_ge(t, q, len, n - 1);
            assert(gate_count(t, q) <= 1);
        }
        assert forall|q: Seq<char>| gate_count(c, q) == 1 implies #[trigger] sources_to(props, q)
            == gate_children_paths(c, q) by {
            lemma_children_count_ge(t, q, len, n - 1);
            assert(gate_count(t, q) <= 1);
            assert(gate_count(t, q) == 1);
            lemma_only_child(t, q, len, n - 1);
            assert(!(t.data.element is Gate && "@"@ + element_path(t.data.element) == q));
            assert(gate_children_paths(t, q) =~= children_gcp(t, q, len));
        }
        lemma_grow_back(c, props, ev, gates, dm, fuel);
        let srcs = child_paths(t, n);
        assert(srcs.drop_last() =~= child_paths(t, n - 1));
    }
}


proof fn lemma_counted_paths(t: ConsertTree, q: Seq<char>)
    requires
        gate_count(t, q) > 0,
    ensures
        q.len() > 2 && q[1] == 'g' && q[2] == 'a',
    decreases t, 1nat,
{
    if t.data.element is Gate && "@"@ + element_path(t.data.element) == q {
        lemma_path_initial(t.data.element);
    } else {
        lemma_counted_paths_children(t, q, t.data.children@.len() as int);
    }
}

proof fn lemma_counted_paths_children(t: ConsertTree, q: Seq<char>, n: int)
    requires
        0 <= n <= t.data.children@.len(),
        children_count(t, q, n) > 0,
    ensures
        q.len() > 2 && q[1] == 'g' && q[2] == 'a',
    decreases t, 0nat, n,
{
    if children_count(t, q, n - 1) > 0 {
        lemma_counted_paths_children(t, q, n - 1);
    } else {
        lemma_counted_paths(t.data.children@[n - 1], q);
    }
}

/// Every edge of a tree ends at a gate.
proof fn lemma_edge_targets(t: ConsertTree)
    ensures
        forall|k: int|
            0 <= k < tree_edges(t).len() ==> (#[trigger] tree_edges(t)[k].target_path).len() > 1
                && tree_edges(t)[k].target_path[1] == 'g',
    decreases t, 1nat,
{
    let len = t.data.children@.len() as int;
    lemma_children_edge_targets(t, len);
    if t.data.element is Gate {
        lemma_path_initial(t.data.element);
        lemma_child_link_targets(t, len);
        let a = children_edges(t, len);
        let b = child_links(t, len);
        assert forall|k: int| 0 <= k < (a + b).len() implies ((#[trigger] (a + b)[k]).target_path).len()
            > 1 && (a + b)[k].target_path[1] == 'g' by {
            if k >= a.len() {
                assert((a + b)[k] == b[k - a.len()]);
            }
        }
    } else {
        assert(tree_edges(t) =~= children_edges(t, len));
    }
}

proof fn lemma_child_link_targets(t: ConsertTree, n: int)
    requires
        0 <= n <= t.data.children@.len(),
    ensures
        forall|k: int|
            0 <= k < child_links(t, n).len() ==> #[trigger] child_links(t, n)[k].target_path == "@"@
                + element_path(t.data.element),
    decreases n,
{
    if n > 0 {
        lemma_child_link_targets(t, n - 1);
        let a = child_links(t, n - 1);
        assert forall|k: int| 0 <= k < child_links(t, n).len() implies #[trigger] child_links(
            t,
            n,
        )[k].target_path == "@"@ + element_path(t.data.element) by {
            if k < a.len() {
                assert(child_links(t, n)[k] == a[k]);
            }
        }
    }
}

proof fn lemma_children_edge_targets(t: ConsertTree, n: int)
    requires
        0 <= n <= t.data.children@.len(),
    ensures
        forall|k: int|
            0 <= k < children_edges(t, n).len() ==> (#[trigger] children_edges(t, n)[k].target_path).len()
                > 1 && children_edges(t, n)[k].target_path[1] == 'g',
    decreases t, 0nat, n,
{
    if n > 0 {
        lemma_children_edge_targets(t, n - 1);
        lemma_edge_targets(t.data.children@[n - 1]);
        let a = children_edges(t, n - 1);
        let b = tree_edges(t.data.children@[n - 1]);
        assert forall|k: int| 0 <= k < (a + b).len() implies ((#[trigger] (a + b)[k]).target_path).len()
            > 1 && (a + b)[k].target_path[1] == 'g' by {
            if k >= a.len() {
                assert((a + b)[k] == b[k - a.len()]);
            }
        }
    }
}

/// No two gates of the tree share a path name `gates.<index>`, that is an
/// index.
pub open spec fn gate_indices_distinct(t: ConsertTree) -> bool {
    forall|q: Seq<char>| #[trigger] gate_count(t, q) <= 1
}

/// Re-growing a guarantee's tree from the gates and the edges that
/// `gates_and_guarantee_propagations` returns, starting at the source path
/// of the last edge (the one into the guarantee), reproduces the structure
/// of the tree: the same elements, the same children in the same order.
/// This holds when no two gates share an index, every gate is found in the
/// gate list with its function, every leaf's evidence or demand is in the
/// lists, and only gates have children.
proof fn lemma_regrow_round_trip(
    g: crate::guarantees::Guarantee,
    gates: Seq<Gate>,
    props: Seq<PropagationView>,
    ev: Seq<Evidence>,
    dm: Seq<Demand>,
)
    requires
        props == tree_edges(g.cst).push(crate::guarantees::root_edge(g)),
        gate_indices_distinct(g.cst),
        regrowable(g.cst, ev, gates, dm),
    ensures
        grow_spec(props.last().source_path, props, ev, gates, dm, props.len() + 1) == Some(
            shape_of(g.cst),
        ),
{
    let t = g.cst;
    let r = crate::guarantees::root_edge(g);
    let edges = tree_edges(t);
    reveal_strlit("@guarantees.");
    lemma_edge_targets(t);
    assert forall|k: int| 0 <= k < props.len() implies (#[trigger] props[k].target_path).len() > 1
        && props[k].target_path[1] == 'g' by {
        if k < edges.len() {
            assert(props[k] == edges[k]);
        } else {
            assert(props[k] == r);
        }
    }
    assert forall|q: Seq<char>| gate_count(t, q) == 1 implies #[trigger] sources_to(props, q)
        == gate_children_paths(t, q) by {
        lemma_counted_paths(t, q);
        assert(r.target_path[2] == 'u');
        lemma_sources_concat(edges, seq![r], q);
        assert(edges + seq![r] =~= props);
        assert(r.target_path != q);
        assert(seq![r][0] == r);
        lemma_no_sources(seq![r], q);
        lemma_sources_tree_edges(t, q);
        assert(sources_to(props, q) =~= gate_children_paths(t, q));
    }
    lemma_height_bound(t, ev, gates, dm);
    lemma_grow_back(t, props, ev, gates, dm, props.len() + 1);
}


/// The lists hold the evidence or demand of each leaf's index.
pub open spec fn leaf_resolvable(e: ConsertTreeElement, ev: Seq<Evidence>, dm: Seq<Demand>) -> bool {
    match e {
        ConsertTreeElement::RuntimeEvidence(i, _) => exists|k: int|
            0 <= k < ev.len() && #[trigger] ev[k].index == i,
        ConsertTreeElement::Demand(i, _) => exists|k: int|
            0 <= k < dm.len() && #[trigger] dm[k].index == i,
        _ => true,
    }
}

/// Every leaf of the tree is resolvable and only gates have children.
pub open spec fn leaves_regrowable(t: ConsertTree, ev: Seq<Evidence>, dm: Seq<Demand>) -> bool
    decreases t, 1nat,
{
    &&& leaf_resolvable(t.data.element, ev, dm)
    &&& (t.data.element !is Gate ==> t.data.children@.len() == 0)
    &&& children_leaves_regrowable(t, ev, dm, t.data.children@.len() as int)
}

pub open spec fn children_leaves_regrowable(t: ConsertTree, ev: Seq<Evidence>, dm: Seq<Demand>, n: int) -> bool
    decreases t, 0nat, n,
{
    if n <= 0 || n > t.data.children@.len() {
        true
    } else {
        children_leaves_regrowable(t, ev, dm, n - 1) && leaves_regrowable(t.data.children@[n - 1], ev, dm)
    }
}

/// The gates of a list as (id, index, function).
pub open spec fn gate_views(gates: Seq<Gate>) -> Seq<(Seq<char>, usize, GateFunction)> {
    gates.map_values(|g: Gate| crate::guarantees::gate_view(g))
}

/// How many entries of a gate list have index `i`.
pub open spec fn index_count(l: Seq<(Seq<char>, usize, GateFunction)>, i: usize) -> nat
    decreases l.len(),
{
    if l.len() == 0 {
        0
    } else {
        (if l[0].1 == i {
            1nat
        } else {
            0nat
        }) + index_count(l.drop_first(), i)
    }
}

proof fn lemma_index_count_concat(a: Seq<(Seq<char>, usize, GateFunction)>, b: Seq<(Seq<char>, usize, GateFunction)>, i: usize)
    ensures
        index_count(a + b, i) == index_count(a, i) + index_count(b, i),
    decreases a.len(),
{
    if a.len() == 0 {
        assert(a + b =~= b);
    } else {
        lemma_index_count_concat(a.drop_first(), b, i);
        assert((a + b).drop_first() =~= a.drop_first() + b);
    }
}

proof fn lemma_index_count_pos(l: Seq<(Seq<char>, usize, GateFunction)>, i: usize, k: int)
    requires
        0 <= k < l.len(),
        l[k].1 == i,
    ensures
        index_count(l, i) >= 1,
    decreases l.len(),
{
    if k > 0 {
        lemma_index_count_pos(l.drop_first(), i, k - 1);
    }
}

proof fn lemma_unique_lookup(gates: Seq<Gate>, i: usize, k: int)
    requires
        0 <= k < gates.len(),
        gates[k].index == i,
        index_count(gate_views(gates), i) <= 1,
    ensures
        gate_function_of(gates, i) == Some(gates[k].function),
    decreases gates.len(),
{
    let lv = gate_views(gates);
    assert(lv.drop_first() =~= gate_views(gates.drop_first()));
    if gates[0].index == i {
        if k > 0 {
            lemma_index_count_pos(lv.drop_first(), i, k - 1);
        }
    } else {
        lemma_unique_lookup(gates.drop_first(), i, k - 1);
    }
}

proof fn lemma_gate_path_injective(e: ConsertTreeElement, i: usize)
    requires
        e is Gate,
    ensures
        ("@"@ + element_path(e) == "@"@ + element_path(ConsertTreeElement::Gate(arbitrary(), i, GateFunction::And)))
            <==> e->Gate_1 == i,
{
    let j = e->Gate_1;
    reveal_strlit("@");
    reveal_strlit("gates.");
    let x = "@"@ + "gates."@;
    assert(x.len() == 7);
    let a = "@"@ + ("gates."@ + decimal(j as nat));
    let b = "@"@ + ("gates."@ + decimal(i as nat));
    assert(a =~= x + decimal(j as nat));
    assert(b =~= x + decimal(i as nat));
    if a == b {
        assert(a.subrange(7, a.len() as int) =~= decimal(j as nat));
        assert(b.subrange(7, b.len() as int) =~= decimal(i as nat));
        lemma_decimal_round_trip(i as nat);
        lemma_decimal_round_trip(j as nat);
    }
}

/// The path, with its `@`, of any gate of index `i`.
pub open spec fn gate_path(i: usize) -> Seq<char> {
    "@"@ + element_path(ConsertTreeElement::Gate(arbitrary(), i, GateFunction::And))
}

proof fn lemma_index_count_tree(t: ConsertTree, i: usize)
    ensures
        index_count(crate::guarantees::tree_gates(t), i) == gate_count(t, gate_path(i)),
    decreases t, 1nat,
{
    let len = t.data.children@.len() as int;
    lemma_index_count_children(t, i, len);
    let own: Seq<(Seq<char>, usize, GateFunction)> = match t.data.element {
        ConsertTreeElement::Gate(id, j, f) => seq![(id@, j, f)],
        _ => Seq::empty(),
    };
    lemma_index_count_concat(crate::guarantees::children_gates(t, len), own, i);
    assert(index_count(Seq::<(Seq<char>, usize, GateFunction)>::empty(), i) == 0);
    if t.data.element is Gate {
        lemma_gate_path_injective(t.data.element, i);
        assert(own.drop_first() =~= Seq::<(Seq<char>, usize, GateFunction)>::empty());
    } else {
        assert(index_count(own, i) == 0);
    }
}

proof fn lemma_index_count_children(t: ConsertTree, i: usize, n: int)
    requires
        0 <= n <= t.data.children@.len(),
    ensures
        index_count(crate::guarantees::children_gates(t, n), i) == children_count(t, gate_path(i), n),
    decreases t, 0nat, n,
{
    if n > 0 {
        lemma_index_count_children(t, i, n - 1);
        lemma_index_count_tree(t.data.children@[n - 1], i);
        lemma_index_count_concat(
            crate::guarantees::children_gates(t, n - 1),
            crate::guarantees::tree_gates(t.data.children@[n - 1]),
            i,
        );
    }
}

proof fn lemma_child_gates_in(t: ConsertTree, n: int, k: int, x: (Seq<char>, usize, GateFunction))
    requires
        0 <= k < n <= t.data.children@.len(),
        crate::guarantees::tree_gates(t.data.children@[k]).contains(x),
    ensures
        crate::guarantees::children_gates(t, n).contains(x),
    decreases n,
{
    let a = crate::guarantees::children_gates(t, n - 1);
    let b = crate::guarantees::tree_gates(t.data.children@[n - 1]);
    if k < n - 1 {
        lemma_child_gates_in(t, n - 1, k, x);
        let j = choose|j: int| 0 <= j < a.len() && a[j] == x;
        assert((a + b)[j] == x);
    } else {
        let j = choose|j: int| 0 <= j < b.len() && b[j] == x;
        assert((a + b)[a.len() + j] == x);
    }
}

/// Leaves that resolve, gates that are listed, and no index listed twice
/// make a tree regrowable.
proof fn lemma_regrowable(t: ConsertTree, ev: Seq<Evidence>, gates: Seq<Gate>, dm: Seq<Demand>)
    requires
        leaves_regrowable(t, ev, dm),
        forall|x: (Seq<char>, usize, GateFunction)| #[trigger] crate::guarantees::tree_gates(t).contains(x)
            ==> gate_views(gates).contains(x),
        forall|i: usize| #[trigger] index_count(gate_views(gates), i) <= 1,
    ensures
        regrowable(t, ev, gates, dm),
    decreases t, 1nat,
{
    let lv = gate_views(gates);
    let len = t.data.children@.len() as int;
    if let ConsertTreeElement::Gate(id, i, f) = t.data.element {
        let tg = crate::guarantees::tree_gates(t);
        assert(tg[tg.len() - 1] == (id@, i, f));
        assert(tg.contains((id@, i, f)));
        let k = choose|k: int| 0 <= k < lv.len() && lv[k] == (id@, i, f);
        assert(index_count(lv, i) <= 1);
        lemma_unique_lookup(gates, i, k);
    }
    lemma_children_regrowable_from(t, ev, gates, dm, len);
}

proof fn lemma_children_regrowable_from(t: ConsertTree, ev: Seq<Evidence>, gates: Seq<Gate>, dm: Seq<Demand>, n: int)
    requires
        0 <= n <= t.data.children@.len(),
        children_leaves_regrowable(t, ev, dm, n),
        forall|x: (Seq<char>, usize, GateFunction)| #[trigger] crate::guarantees::tree_gates(t).contains(x)
            ==> gate_views(gates).contains(x),
        forall|i: usize| #[trigger] index_count(gate_views(gates), i) <= 1,
    ensures
        children_regrowable(t, ev, gates, dm, n),
    decreases t, 0nat, n,
{
    if n > 0 {
        let len = t.data.children@.len() as int;
        let c = t.data.children@[n - 1];
        lemma_children_regrowable_from(t, ev, gates, dm, n - 1);
        assert forall|x: (Seq<char>, usize, GateFunction)| #[trigger] crate::guarantees::tree_gates(c).contains(x)
            implies gate_views(gates).contains(x) by {
            lemma_child_gates_in(t, len, n - 1, x);
            let a = crate::guarantees::children_gates(t, len);
            let own: Seq<(Seq<char>, usize, GateFunction)> = match t.data.element {
                ConsertTreeElement::Gate(id, j, f) => seq![(id@, j, f)],
                _ => Seq::empty(),
            };
            let j = choose|j: int| 0 <= j < a.len() && a[j] == x;
            assert(crate::guarantees::tree_gates(t) == a + own);
            assert((a + own)[j] == x);
            assert(crate::guarantees::tree_gates(t).contains(x));
        }
        lemma_regrowable(c, ev, gates, dm);
    }
}

/// Re-growing a guarantee's tree from the gates and the edges that
/// `gates_and_guarantee_propagations` returns, starting at the source path
/// of the last edge (the one into the guarantee), reproduces the structure
/// of the tree: the same elements, the same children in the same order.
/// This holds when no two gates share an index, every leaf's evidence or
/// demand is in the lists, and only gates have children.
pub proof fn lemma_regrow_from_returned_gates(
    g: crate::guarantees::Guarantee,
    gates: Seq<Gate>,
    props: Seq<PropagationView>,
    ev: Seq<Evidence>,
    dm: Seq<Demand>,
)
    requires
        gate_views(gates) == crate::guarantees::tree_gates(g.cst),
        props == tree_edges(g.cst).push(crate::guarantees::root_edge(g)),
        gate_indices_distinct(g.cst),
        leaves_regrowable(g.cst, ev, dm),
    ensures
        grow_spec(props.last().source_path, props, ev, gates, dm, props.len() + 1) == Some(
            shape_of(g.cst),
        ),
{
    assert forall|i: usize| #[trigger] index_count(gate_views(gates), i) <= 1 by {
        lemma_index_count_tree(g.cst, i);
        assert(gate_count(g.cst, gate_path(i)) <= 1);
    }
    lemma_regrowable(g.cst, ev, gates, dm);
    lemma_regrow_round_trip(g, gates, props, ev, dm);
}

} // verus!
