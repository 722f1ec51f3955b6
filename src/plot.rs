use vstd::prelude::*;
use crate::dimension::SubsetRelationship;
use crate::parse::{contains_text, occurs_in};

verus! {

/// The covering direction as the diagrams show it.
pub open spec fn subset_text(subset: SubsetRelationship) -> Seq<char> {
    match subset {
        SubsetRelationship::Guarantee => "G <= D"@,
        SubsetRelationship::Demand => "D <= G"@,
    }
}

pub fn subset_to_string(subset: &SubsetRelationship) -> (r: String)
    ensures
        r@ == subset_text(*subset),
{
    match subset {
        SubsetRelationship::Guarantee => "G <= D".to_owned(),
        SubsetRelationship::Demand => "D <= G".to_owned(),
    }
}

/// The three parts a diagram's statements are sorted into: guarantees,
/// top-level gates, and everything else.
pub struct PlotParts {
    pub guarantees: Seq<char>,
    pub gates: Seq<char>,
    pub rest: Seq<char>,
}

/// Sorts one statement: guarantees and top-level gates go to their own
/// part, statements that close a block are dropped, the rest is kept; each
/// kept statement is terminated by `;`.
pub open spec fn place_line(p: PlotParts, line: Seq<char>) -> PlotParts {
    if occurs_in(line, "<Guarantee>"@) {
        PlotParts { guarantees: p.guarantees + line + ";"@, ..p }
    } else if occurs_in(line, "<TLG>"@) {
        PlotParts { gates: p.gates + line + ";"@, ..p }
    } else if !occurs_in(line, "}"@) {
        PlotParts { rest: p.rest + line + ";"@, ..p }
    } else {
        p
    }
}

/// The parts after the complete statements of `s`, and the statement that
/// is still open at its end.
pub open spec fn scan(s: Seq<char>) -> (PlotParts, Seq<char>)
    decreases s.len(),
{
    if s.len() == 0 {
        (PlotParts { guarantees: "{rank=same;"@, gates: "{rank=same;"@, rest: Seq::empty() }, Seq::empty())
    } else {
        let (p, cur) = scan(s.drop_last());
        if s.last() == ';' {
            (place_line(p, cur), Seq::empty())
        } else {
            (p, cur.push(s.last()))
        }
    }
}

/// A diagram with its `;`-separated statements sorted: the kept statements,
/// then the guarantees as one block of equal rank, then the top-level gates
/// as another, and the closing brace.
pub open spec fn post_process_spec(s: Seq<char>) -> Seq<char> {
    let (p, cur) = scan(s);
    let q = place_line(p, cur);
    q.rest + q.guarantees + "}"@ + q.gates + "}}"@
}

fn place(guarantees: &mut String, gates: &mut String, rest: &mut String, line: &String)
    ensures
        (PlotParts { guarantees: final(guarantees)@, gates: final(gates)@, rest: final(rest)@ })
            == place_line(
            PlotParts { guarantees: old(guarantees)@, gates: old(gates)@, rest: old(rest)@ },
            line@,
        ),
{
    proof {
        reveal_strlit(";");
    }
    if contains_text(line.as_str(), "<Guarantee>") {
        guarantees.append(line.as_str());
        guarantees.append(";");
    } else if contains_text(line.as_str(), "<TLG>") {
        gates.append(line.as_str());
        gates.append(";");
    } else if !contains_text(line.as_str(), "}") {
        rest.append(line.as_str());
        rest.append(";");
    }
}

/// Puts the guarantees and the top-level gates of a diagram on one rank
/// each (see [`post_process_spec`]).
pub fn post_process(s: &str) -> (r: String)
    ensures
        r@ == post_process_spec(s@),
{
    let n = s.unicode_len();
    let mut guarantees = "{rank=same;".to_owned();
    let mut gates = "{rank=same;".to_owned();
    let mut rest = String::new();
    let mut cur = String::new();
    let mut i: usize = 0;
    assert(s@.subrange(0, 0) =~= Seq::<char>::empty());
    while i < n
        invariant
            n == s@.len(),
            i <= n,
            scan(s@.subrange(0, i as int)) == (
                PlotParts { guarantees: guarantees@, gates: gates@, rest: rest@ },
                cur@,
            ),
        decreases n - i,
    {
        let c = s.get_char(i);
        assert(s@.subrange(0, i as int + 1).drop_last() =~= s@.subrange(0, i as int));
        if c == ';' {
            place(&mut guarantees, &mut gates, &mut rest, &cur);
            cur = String::new();
        } else {
            let one = s.substring_char(i, i + 1);
            let ghost before = cur@;
            cur.append(one);
            assert(cur@ =~= before.push(c));
        }
        i = i + 1;
    }
    assert(s@.subrange(0, n as int) =~= s@);
    place(&mut guarantees, &mut gates, &mut rest, &cur);
    let mut r = rest;
    r.append(guarantees.as_str());
    r.append("}");
    r.append(gates.as_str());
    r.append("}}");
    r
}

} // verus!
