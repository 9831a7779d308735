//! Reachability over the references between heap slots, as the collector's
//! mark phase computes it.
use vstd::prelude::*;

verus! {

/// The integers that occur in `s`.
pub open spec fn id_set(s: Seq<usize>) -> Set<int> {
    Set::new(|i: int| exists|k: int| 0 <= k < s.len() && s[k] as int == i)
}

/// Slot `i` lists slot `j` among its references.
pub open spec fn refers_to(children: Seq<Vec<usize>>, i: int, j: int) -> bool {
    0 <= i < children.len() && 0 <= j && children[i]@.contains(j as usize)
}

/// Step `k` of the chain `p` follows a reference.
pub open spec fn chain_step(children: Seq<Vec<usize>>, p: Seq<int>, k: int) -> bool {
    refers_to(children, p[k], p[k + 1])
}

/// `p` starts in `starts`, stays inside `nodes`, and each of its steps
/// follows a reference.
pub open spec fn is_chain(nodes: Set<int>, children: Seq<Vec<usize>>, starts: Set<int>, p: Seq<int>) -> bool {
    &&& p.len() > 0
    &&& starts.contains(p[0])
    &&& forall|k: int| 0 <= k < p.len() ==> nodes.contains(#[trigger] p[k])
    &&& forall|k: int| 0 <= k < p.len() - 1 ==> #[trigger] chain_step(children, p, k)
}

/// Some chain inside `nodes` leads from `starts` to `n`.
pub open spec fn reaches(nodes: Set<int>, children: Seq<Vec<usize>>, starts: Set<int>, n: int) -> bool {
    exists|p: Seq<int>| #[trigger] is_chain(nodes, children, starts, p) && p.last() == n
}

/// A start inside `nodes` is reached.
pub proof fn lemma_reaches_start(nodes: Set<int>, children: Seq<Vec<usize>>, starts: Set<int>, s: int)
    requires
        starts.contains(s),
        nodes.contains(s),
    ensures
        reaches(nodes, children, starts, s),
{
    let p = seq![s];
    assert(is_chain(nodes, children, starts, p));
}

/// What a reached node refers to inside `nodes` is reached.
pub proof fn lemma_reaches_step(
    nodes: Set<int>,
    children: Seq<Vec<usize>>,
    starts: Set<int>,
    i: int,
    j: int,
)
    requires
        reaches(nodes, children, starts, i),
        nodes.contains(j),
        refers_to(children, i, j),
    ensures
        reaches(nodes, children, starts, j),
{
    let p = choose|p: Seq<int>| #[trigger] is_chain(nodes, children, starts, p) && p.last() == i;
    let q = p.push(j);
    assert forall|k: int| 0 <= k < q.len() - 1 implies #[trigger] chain_step(children, q, k) by {
        if k < p.len() - 1 {
            assert(chain_step(children, p, k));
        }
    }
    assert(is_chain(nodes, children, starts, q));
}

/// A set that holds every start inside `nodes` and, with each of its
/// members, everything inside `nodes` that the member refers to, holds
/// every node that is reached.
pub proof fn lemma_closed_holds_reached(
    nodes: Set<int>,
    children: Seq<Vec<usize>>,
    starts: Set<int>,
    s: Set<int>,
    n: int,
)
    requires
        forall|x: int| starts.contains(x) && nodes.contains(x) ==> s.contains(x),
        forall|x: int, y: int|
            s.contains(x) && nodes.contains(y) && #[trigger] refers_to(children, x, y) ==> s.contains(y),
        reaches(nodes, children, starts, n),
    ensures
        s.contains(n),
{
    let p = choose|p: Seq<int>| #[trigger] is_chain(nodes, children, starts, p) && p.last() == n;
    lemma_closed_holds_prefix(nodes, children, starts, s, p, p.len() - 1);
}

/// Under the hypotheses of `lemma_closed_holds_reached`, the first `k + 1`
/// nodes of a chain are in the set.
proof fn lemma_closed_holds_prefix(
    nodes: Set<int>,
    children: Seq<Vec<usize>>,
    starts: Set<int>,
    s: Set<int>,
    p: Seq<int>,
    k: int,
)
    requires
        forall|x: int| starts.contains(x) && nodes.contains(x) ==> s.contains(x),
        forall|x: int, y: int|
            s.contains(x) && nodes.contains(y) && #[trigger] refers_to(children, x, y) ==> s.contains(y),
        is_chain(nodes, children, starts, p),
        0 <= k < p.len(),
    ensures
        s.contains(p[k]),
    decreases k,
{
    assert(nodes.contains(p[k]));
    if k > 0 {
        lemma_closed_holds_prefix(nodes, children, starts, s, p, k - 1);
        assert(chain_step(children, p, k - 1));
    }
}

} // verus!
