//! The role graph: the directed relation built from `g` policy rules, with a
//! terminating, cycle-safe transitive membership query.

use vstd::prelude::*;
use vstd::set_lib::lemma_len_subset;

verus! {

/// `from` reaches `to` along `g` edges in at most `k` steps (reflexive).
pub open spec fn reach_k(
    edges: Seq<(String, String)>,
    from: Seq<char>,
    to: Seq<char>,
    k: nat,
) -> bool
    decreases k,
{
    if from == to {
        true
    } else if k == 0 {
        false
    } else {
        exists|i: int|
            0 <= i < edges.len() && (#[trigger] edges[i]).0@ == from && reach_k(
                edges,
                edges[i].1@,
                to,
                (k - 1) as nat,
            )
    }
}

/// Transitive (and reflexive) role membership: `from` reaches `to` along the
/// `g` edges in some number of steps.
pub open spec fn reaches(edges: Seq<(String, String)>, from: Seq<char>, to: Seq<char>) -> bool {
    exists|k: nat| reach_k(edges, from, to, k)
}

/// A string with the view `x` occurs in `seen`.
pub open spec fn in_seen(seen: Seq<String>, x: Seq<char>) -> bool {
    exists|j: int| 0 <= j < seen.len() && (#[trigger] seen[j])@ == x
}

/// `seen` is closed under following the edges.
pub open spec fn closed(edges: Seq<(String, String)>, seen: Seq<String>) -> bool {
    forall|i: int|
        0 <= i < edges.len() && in_seen(seen, (#[trigger] edges[i]).0@) ==> in_seen(
            seen,
            edges[i].1@,
        )
}

/// A reachable node followed by one more edge is still reachable.
proof fn lemma_reach_extend(edges: Seq<(String, String)>, from: Seq<char>, i: int, k: nat)
    requires
        0 <= i < edges.len(),
        reach_k(edges, from, edges[i].0@, k),
    ensures
        reach_k(edges, from, edges[i].1@, (k + 1) as nat),
    decreases k,
{
    if from == edges[i].0@ {
        assert(reach_k(edges, edges[i].1@, edges[i].1@, k));
        assert(0 <= i < edges.len() && edges[i].0@ == from && reach_k(
            edges,
            edges[i].1@,
            edges[i].1@,
            k,
        ));
    } else {
        let j = choose|j: int|
            0 <= j < edges.len() && (#[trigger] edges[j]).0@ == from && reach_k(
                edges,
                edges[j].1@,
                edges[i].0@,
                (k - 1) as nat,
            );
        lemma_reach_extend(edges, edges[j].1@, i, (k - 1) as nat);
        assert(0 <= j < edges.len() && edges[j].0@ == from && reach_k(
            edges,
            edges[j].1@,
            edges[i].1@,
            k,
        ));
    }
}

/// Anything reachable from a member of an edge-closed set is in the set.
proof fn lemma_closed_complete(
    edges: Seq<(String, String)>,
    seen: Seq<String>,
    from: Seq<char>,
    to: Seq<char>,
    k: nat,
)
    requires
        in_seen(seen, from),
        closed(edges, seen),
        reach_k(edges, from, to, k),
    ensures
        in_seen(seen, to),
    decreases k,
{
    if from != to {
        let i = choose|i: int|
            0 <= i < edges.len() && (#[trigger] edges[i]).0@ == from && reach_k(
                edges,
                edges[i].1@,
                to,
                (k - 1) as nat,
            );
        assert(in_seen(seen, edges[i].1@));
        lemma_closed_complete(edges, seen, edges[i].1@, to, (k - 1) as nat);
    }
}

/// Every member of `seen` is the start node or the target of some edge.
pub open spec fn seen_ok(edges: Seq<(String, String)>, from: Seq<char>, seen: Seq<String>) -> bool {
    forall|j: int|
        0 <= j < seen.len() ==> (#[trigger] seen[j])@ == from || exists|i: int|
            0 <= i < edges.len() && (#[trigger] edges[i]).1@ == seen[j]@
}

/// A duplicate-free `seen` drawn from the start node and the edge targets
/// can hold at most one string per edge, plus the start node.
proof fn lemma_seen_bound(edges: Seq<(String, String)>, from: Seq<char>, seen: Seq<String>)
    requires
        seen.map_values(|s: String| s@).no_duplicates(),
        seen_ok(edges, from, seen),
    ensures
        seen.len() <= edges.len() + 1,
{
    broadcast use vstd::seq_lib::seq_to_set_is_finite;

    let vs = seen.map_values(|s: String| s@);
    vs.unique_seq_to_set();
    let tgts = edges.map_values(|e: (String, String)| e.1@);
    tgts.lemma_cardinality_of_set();
    let big = tgts.to_set().insert(from);
    assert forall|x: Seq<char>| vs.to_set().contains(x) implies big.contains(x) by {
        let j = choose|j: int| 0 <= j < vs.len() && vs[j] == x;
        assert(seen[j]@ == x);
        if seen[j]@ != from {
            let i = choose|i: int| 0 <= i < edges.len() && (#[trigger] edges[i]).1@ == seen[j]@;
            assert(tgts[i] == x);
            assert(tgts.to_set().contains(x));
        }
    }
    lemma_len_subset(vs.to_set(), big);
    assert(big.len() <= tgts.to_set().len() + 1);
}

/// Exec membership test for [`in_seen`].
fn contains_str(seen: &Vec<String>, x: &str) -> (r: bool)
    ensures
        r == in_seen(seen@, x@),
{
    let n = seen.len();
    let mut i: usize = 0;
    while i < n
        invariant
            n == seen@.len(),
            0 <= i <= n,
            forall|j: int| 0 <= j < i ==> (#[trigger] seen@[j])@ != x@,
        decreases n - i,
    {
        if crate::text::str_eq(seen[i].as_str(), x) {
            return true;
        }
        i += 1;
    }
    false
}

/// Whether `user` is a (transitive) member of `role` under the `g` edges.
///
/// The query is total and cycle-safe: it computes the set of nodes reachable
/// from `user` by fixpoint iteration over a visited list, so it terminates
/// on every graph, and the answer is exactly [`reaches`].
pub fn has_role(edges: &Vec<(String, String)>, user: &String, role: &String) -> (r: bool)
    ensures
        r == reaches(edges@, user@, role@),
{
    let mut seen: Vec<String> = Vec::new();
    seen.push(user.clone());
    proof {
        assert(seen@.map_values(|s: String| s@) =~= seq![user@]);
        assert(seen@[0]@ == user@);
        assert(reach_k(edges@, user@, user@, 0));
    }
    let mut changed = true;
    while changed
        invariant
            seen@.len() >= 1,
            seen@.len() <= edges@.len() + 1,
            in_seen(seen@, user@),
            seen@.map_values(|s: String| s@).no_duplicates(),
            seen_ok(edges@, user@, seen@),
            forall|j: int| 0 <= j < seen@.len() ==> reaches(edges@, user@, (#[trigger] seen@[j])@),
            !changed ==> closed(edges@, seen@),
        decreases edges@.len() + 1 - seen@.len(), (if changed { 1int } else { 0int }),
    {
        changed = false;
        let ghost start_len = seen@.len();
        let n = edges.len();
        let mut i: usize = 0;
        while i < n
            invariant
                n == edges@.len(),
                0 <= i <= n,
                start_len <= seen@.len(),
                changed ==> seen@.len() > start_len,
                seen@.len() >= 1,
                seen@.len() <= edges@.len() + 1,
                in_seen(seen@, user@),
                seen@.map_values(|s: String| s@).no_duplicates(),
                seen_ok(edges@, user@, seen@),
                forall|j: int|
                    0 <= j < seen@.len() ==> reaches(edges@, user@, (#[trigger] seen@[j])@),
                !changed ==> forall|j: int|
                    0 <= j < i && in_seen(seen@, (#[trigger] edges@[j]).0@) ==> in_seen(
                        seen@,
                        edges@[j].1@,
                    ),
            decreases n - i,
        {
            let e = &edges[i];
            if contains_str(&seen, e.0.as_str()) && !contains_str(&seen, e.1.as_str()) {
                let ghost old_seen = seen@;
                seen.push(e.1.clone());
                changed = true;
                proof {
                    assert(seen@.map_values(|s: String| s@) =~= old_seen.map_values(
                        |s: String| s@,
                    ).push(edges@[i as int].1@));
                    // the pushed node is reachable: extend a witness path by edge i
                    let j = choose|j: int|
                        0 <= j < old_seen.len() && (#[trigger] old_seen[j])@ == edges@[i as int].0@;
                    let k = choose|k: nat| reach_k(edges@, user@, old_seen[j]@, k);
                    lemma_reach_extend(edges@, user@, i as int, k);
                    assert(reach_k(edges@, user@, edges@[i as int].1@, (k + 1) as nat));
                    lemma_seen_bound(edges@, user@, seen@);
                    let ju = choose|j: int|
                        0 <= j < old_seen.len() && (#[trigger] old_seen[j])@ == user@;
                    assert(seen@[ju]@ == user@);
                }
            }
            i += 1;
        }
    }
    let r = contains_str(&seen, role.as_str());
    proof {
        if r {
            let j = choose|j: int| 0 <= j < seen@.len() && (#[trigger] seen@[j])@ == role@;
            assert(reaches(edges@, user@, seen@[j]@));
        } else {
            if reaches(edges@, user@, role@) {
                let k = choose|k: nat| reach_k(edges@, user@, role@, k);
                lemma_closed_complete(edges@, seen@, user@, role@, k);
            }
        }
    }
    r
}

} // verus!
