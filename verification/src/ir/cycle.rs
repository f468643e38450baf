//! Circular chains of supertypes.
//!
//! The entities and their supertypes form a graph: node `i` has an edge
//! to each node of `g[i]`. A chain is a walk along edges. Where no chain
//! runs in a circle, every chain from a node ends within as many steps as
//! there are nodes; a chain that goes on for longer has passed some node
//! twice.

use super::complex_entity::index_lt;
use super::complex_entity::lemma_index_order;
use super::order::canonical;
use super::order::lemma_canonical_of_ascending;
use vstd::prelude::*;
use vstd::relations::sorted_by;
use vstd::set_lib::lemma_int_range;
use vstd::set_lib::lemma_len_subset;
use vstd::set_lib::set_int_range;

verus! {

/// The edges of a graph as plain values.
pub open spec fn edges(g: Seq<Vec<usize>>) -> Seq<Seq<usize>> {
    g.map_values(|v: Vec<usize>| v@)
}

/// Every chain from node `i` ends after at most `n` steps. A node outside
/// the graph has no edge.
pub open spec fn settles(g: Seq<Seq<usize>>, i: int, n: nat) -> bool
    decreases n,
{
    0 <= i < g.len() ==> forall|k: int|
        0 <= k < g[i].len() ==> n > 0 && settles(g, #[trigger] g[i][k] as int, (n - 1) as nat)
}

/// Some chain from node `i` goes on for more steps than there are nodes:
/// the node lies on a circle or leads into one.
pub open spec fn caught(g: Seq<Seq<usize>>, i: int) -> bool {
    0 <= i < g.len() && !settles(g, i, g.len())
}

/// The nodes that lie on a circle or lead into one, in ascending order.
pub open spec fn caught_list(g: Seq<Seq<usize>>) -> Seq<usize> {
    canonical(Set::new(|i: usize| caught(g, i as int)), index_lt())
}

/// No chain runs in a circle.
pub open spec fn acyclic(g: Seq<Seq<usize>>) -> bool {
    forall|i: int| !caught(g, i)
}

/// Whether every chain from node `i` ends after at most one step more than
/// `reach` says of its neighbours.
fn settles_next(g: &Vec<Vec<usize>>, reach: &Vec<bool>, i: usize, Ghost(n): Ghost<nat>) -> (r: bool)
    requires
        i < g.len(),
        reach.len() == g.len(),
        forall|j: int| 0 <= j < g.len() ==> reach[j] == settles(edges(g@), j, n),
    ensures
        r == settles(edges(g@), i as int, n + 1),
{
    let ghost e = edges(g@);
    let mut k: usize = 0;
    while k < g[i].len()
        invariant
            i < g.len(),
            k <= g[i as int].len(),
            e == edges(g@),
            reach.len() == g.len(),
            forall|j: int| 0 <= j < g.len() ==> reach[j] == settles(e, j, n),
            forall|m: int| 0 <= m < k ==> settles(e, #[trigger] e[i as int][m] as int, n),
        decreases g[i as int].len() - k,
    {
        let t = g[i][k];
        proof {
            assert(e[i as int][k as int] == t);
        }
        if t < g.len() && !reach[t] {
            return false;
        }
        k += 1;
    }
    true
}

/// The nodes that lie on a circle or lead into one, in ascending order.
///
/// No node is returned exactly if the graph is acyclic.
pub fn caught_nodes(g: &Vec<Vec<usize>>) -> (r: Vec<usize>)
    ensures
        r@ == caught_list(edges(g@)),
        sorted_by(r@, index_lt()),
        forall|i: int| caught(edges(g@), i) <==> 0 <= i <= usize::MAX && r@.contains(i as usize),
        r@.len() == 0 <==> acyclic(edges(g@)),
{
    let ghost e = edges(g@);
    let n = g.len();
    let mut reach: Vec<bool> = Vec::new();
    let mut i: usize = 0;
    while i < n
        invariant
            i <= n,
            n == g.len(),
            e == edges(g@),
            reach.len() == i,
            forall|j: int| 0 <= j < i ==> reach[j] == settles(e, j, 0),
        decreases n - i,
    {
        proof {
            assert(e[i as int] == g@[i as int]@);
            if e[i as int].len() > 0 {
                let t = e[i as int][0];
                assert(!settles(e, i as int, 0));
            }
        }
        reach.push(g[i].len() == 0);
        i += 1;
    }
    let mut round: usize = 0;
    while round < n
        invariant
            round <= n,
            n == g.len(),
            e == edges(g@),
            reach.len() == n,
            forall|j: int| 0 <= j < n ==> reach[j] == settles(e, j, round as nat),
        decreases n - round,
    {
        let mut next: Vec<bool> = Vec::new();
        let mut i: usize = 0;
        while i < n
            invariant
                i <= n,
                n == g.len(),
                e == edges(g@),
                reach.len() == n,
                next.len() == i,
                forall|j: int| 0 <= j < n ==> reach[j] == settles(e, j, round as nat),
                forall|j: int| 0 <= j < i ==> next[j] == settles(e, j, (round + 1) as nat),
            decreases n - i,
        {
            let s = settles_next(g, &reach, i, Ghost(round as nat));
            next.push(s);
            i += 1;
        }
        reach = next;
        round += 1;
    }
    let mut out: Vec<usize> = Vec::new();
    let mut i: usize = 0;
    while i < n
        invariant
            i <= n,
            n == g.len(),
            e == edges(g@),
            e.len() == n,
            reach.len() == n,
            forall|j: int| 0 <= j < n ==> reach[j] == settles(e, j, n as nat),
            sorted_by(out@, index_lt()),
            forall|m: int| 0 <= m < out@.len() ==> out@[m] < i,
            forall|j: int| 0 <= j < i ==> (caught(e, j) <==> out@.contains(j as usize)),
        decreases n - i,
    {
        let ghost before = out@;
        if !reach[i] {
            out.push(i);
            proof {
                assert(out@[before.len() as int] == i);
                assert forall|j: int| 0 <= j < i + 1 implies (caught(e, j) <==> out@.contains(
                    j as usize,
                )) by {
                    if j < i {
                        if before.contains(j as usize) {
                            let m = choose|m: int| 0 <= m < before.len() && before[m] == j as usize;
                            assert(out@[m] == j as usize);
                        }
                        if out@.contains(j as usize) {
                            let m = choose|m: int| 0 <= m < out@.len() && out@[m] == j as usize;
                            assert(m < before.len());
                            assert(before[m] == j as usize);
                        }
                    }
                }
            }
        } else {
            proof {
                assert forall|j: int| 0 <= j < i + 1 implies (caught(e, j) <==> out@.contains(
                    j as usize,
                )) by {
                    if j == i && out@.contains(j as usize) {
                        let m = choose|m: int| 0 <= m < out@.len() && out@[m] == j as usize;
                    }
                }
            }
        }
        i += 1;
    }
    proof {
        assert forall|j: int| caught(e, j) <==> 0 <= j <= usize::MAX && out@.contains(
            j as usize,
        ) by {
            if 0 <= j <= usize::MAX && out@.contains(j as usize) {
                let m = choose|m: int| 0 <= m < out@.len() && out@[m] == j as usize;
                assert(out@[m] < n);
            }
        }
        if out@.len() > 0 {
            assert(out@.contains(out@[0]));
            assert(caught(e, out@[0] as int));
        }
        lemma_index_order();
        lemma_canonical_of_ascending(out@, index_lt());
        assert(out@.to_set() =~= Set::new(|i: usize| caught(e, i as int)));
    }
    out
}

/// `w` is a chain: a walk along edges. Every node but the last is a node
/// of the graph and has an edge to the next.
pub open spec fn is_chain(g: Seq<Seq<usize>>, w: Seq<usize>) -> bool {
    &&& w.len() >= 1
    &&& forall|k: int|
        0 <= k < w.len() - 1 ==> (#[trigger] w[k]) < g.len() && g[w[k] as int].contains(w[k + 1])
}

/// Node `v` lies on a circle: some chain of at least one step leads from
/// it back to it.
pub open spec fn on_circle(g: Seq<Seq<usize>>, v: usize) -> bool {
    exists|w: Seq<usize>| is_chain(g, w) && w.len() >= 2 && w[0] == v && #[trigger] w.last() == v
}

/// Some chain leads from node `i` to a node on a circle.
pub open spec fn leads_to_circle(g: Seq<Seq<usize>>, i: usize) -> bool {
    exists|w: Seq<usize>| is_chain(g, w) && w[0] == i && on_circle(g, #[trigger] w.last())
}

/// Edge `k` of node `i` starts a chain of more than `n` steps.
pub open spec fn goes_on(g: Seq<Seq<usize>>, i: int, n: nat, k: int) -> bool {
    0 <= k < g[i].len() && !(n > 0 && settles(g, g[i][k] as int, (n - 1) as nat))
}

/// From a node that does not settle within `n` steps, a chain of `n + 1`
/// steps starts.
pub proof fn lemma_long_chain(g: Seq<Seq<usize>>, i: usize, n: nat) -> (w: Seq<usize>)
    requires
        i < g.len(),
        !settles(g, i as int, n),
    ensures
        is_chain(g, w),
        w.len() == n + 2,
        w[0] == i,
    decreases n,
{
    assert(exists|k: int| #![trigger g[i as int][k]] goes_on(g, i as int, n, k));
    let k = choose|k: int| #![trigger g[i as int][k]] goes_on(g, i as int, n, k);
    let t = g[i as int][k];
    g[i as int].lemma_index_contains(k);
    if n == 0 || !(t < g.len()) {
        if n > 0 {
            assert(settles(g, t as int, (n - 1) as nat));
        }
        let w = seq![i, t];
        assert(g[i as int].contains(t));
        assert(is_chain(g, w));
        w
    } else {
        let rest = lemma_long_chain(g, t, (n - 1) as nat);
        let w = seq![i] + rest;
        assert(g[i as int].contains(t));
        assert forall|j: int| 0 <= j < w.len() - 1 implies (#[trigger] w[j]) < g.len() && g[w[j] as int].contains(
            w[j + 1],
        ) by {
            if j > 0 {
                assert(w[j] == rest[j - 1]);
                assert(w[j + 1] == rest[j]);
            } else {
                assert(w[1] == rest[0]);
            }
        }
        w
    }
}

/// A node from which a chain of `n + 1` steps starts does not settle
/// within `n` steps.
pub proof fn lemma_chain_does_not_settle(g: Seq<Seq<usize>>, w: Seq<usize>, n: nat)
    requires
        is_chain(g, w),
        w.len() == n + 2,
    ensures
        w[0] < g.len(),
        !settles(g, w[0] as int, n),
    decreases n,
{
    let i = w[0];
    assert(w[0] < g.len() && g[w[0] as int].contains(w[1]));
    let k = choose|k: int| 0 <= k < g[i as int].len() && g[i as int][k] == w[1];
    if n > 0 {
        let rest = w.drop_first();
        assert forall|j: int| 0 <= j < rest.len() - 1 implies (#[trigger] rest[j]) < g.len()
            && g[rest[j] as int].contains(rest[j + 1]) by {
            assert(rest[j] == w[j + 1]);
            assert(rest[j + 1] == w[j + 2]);
        }
        lemma_chain_does_not_settle(g, rest, (n - 1) as nat);
        assert(!settles(g, g[i as int][k] as int, (n - 1) as nat));
    }
}

/// A part of a chain is a chain.
pub proof fn lemma_chain_part(g: Seq<Seq<usize>>, w: Seq<usize>, from: int, to: int)
    requires
        is_chain(g, w),
        0 <= from < to <= w.len(),
    ensures
        is_chain(g, w.subrange(from, to)),
{
    let p = w.subrange(from, to);
    assert forall|j: int| 0 <= j < p.len() - 1 implies (#[trigger] p[j]) < g.len() && g[p[j] as int].contains(
        p[j + 1],
    ) by {
        assert(p[j] == w[from + j]);
        assert(p[j + 1] == w[from + j + 1]);
    }
}

/// A chain that ends where another starts goes on along the other.
pub proof fn lemma_chain_joined(g: Seq<Seq<usize>>, a: Seq<usize>, b: Seq<usize>)
    requires
        is_chain(g, a),
        is_chain(g, b),
        a.last() == b[0],
    ensures
        is_chain(g, a + b.drop_first()),
        (a + b.drop_first())[0] == a[0],
        (a + b.drop_first()).last() == b.last(),
        (a + b.drop_first()).len() == a.len() + b.len() - 1,
{
    let w = a + b.drop_first();
    assert forall|j: int| 0 <= j < w.len() - 1 implies (#[trigger] w[j]) < g.len() && g[w[j] as int].contains(
        w[j + 1],
    ) by {
        if j < a.len() - 1 {
            assert(w[j] == a[j] && w[j + 1] == a[j + 1]);
        } else {
            let m = j - (a.len() - 1);
            assert(w[j] == b[m]) by {
                if m > 0 {
                    assert(w[j] == b.drop_first()[m - 1]);
                }
            }
            assert(w[j + 1] == b.drop_first()[m]);
            assert(w[j + 1] == b[m + 1]);
        }
    }
}

/// Around a circle, chains of any length run.
pub proof fn lemma_around(g: Seq<Seq<usize>>, v: usize, steps: nat) -> (w: Seq<usize>)
    requires
        on_circle(g, v),
    ensures
        is_chain(g, w),
        w[0] == v,
        w.last() == v,
        w.len() > steps,
    decreases steps,
{
    let c = choose|w: Seq<usize>|
        is_chain(g, w) && w.len() >= 2 && w[0] == v && #[trigger] w.last() == v;
    if steps == 0 {
        c
    } else {
        let before = lemma_around(g, v, (steps - 1) as nat);
        lemma_chain_joined(g, before, c);
        before + c.drop_first()
    }
}

/// Among more nodes than the graph has, all of the graph, one comes twice.
pub proof fn lemma_one_comes_twice(w: Seq<usize>, n: nat) -> (r: (int, int))
    requires
        w.len() > n,
        forall|k: int| 0 <= k < w.len() ==> w[k] < n,
    ensures
        0 <= r.0 < r.1 < w.len(),
        w[r.0] == w[r.1],
{
    if w.no_duplicates() {
        w.unique_seq_to_set();
        let numbers = w.to_set().map(|x: usize| x as int);
        assert(vstd::relations::injective_on(|x: usize| x as int, w.to_set()));
        vstd::seq_lib::seq_to_set_is_finite(w);
        vstd::set_lib::lemma_map_size(w.to_set(), numbers, |x: usize| x as int);
        lemma_int_range(0, n as int);
        assert(numbers.subset_of(set_int_range(0, n as int))) by {
            assert forall|y: int| numbers.contains(y) implies set_int_range(0, n as int).contains(
                y,
            ) by {
                let x = choose|x: usize| w.to_set().contains(x) && y == x as int;
                let k = choose|k: int| 0 <= k < w.len() && w[k] == x;
            }
        }
        lemma_len_subset(numbers, set_int_range(0, n as int));
        assert(false);
        (0, 0)
    } else {
        let (a, b) = choose|a: int, b: int|
            0 <= a < w.len() && 0 <= b < w.len() && a != b && w[a] == w[b];
        if a < b {
            (a, b)
        } else {
            (b, a)
        }
    }
}

/// The nodes caught are those from which a chain leads to a circle: a
/// node does not settle within as many steps as there are nodes exactly
/// if it lies on a circle of supertypes or leads into one.
pub proof fn caught_means_leading_to_a_circle(g: Seq<Seq<usize>>, i: usize)
    ensures
        caught(g, i as int) <==> leads_to_circle(g, i),
{
    let n = g.len();
    if caught(g, i as int) {
        let w = lemma_long_chain(g, i, n);
        let head = w.take(n as int + 1);
        assert forall|k: int| 0 <= k < head.len() implies head[k] < n by {
            assert(head[k] == w[k]);
        }
        let (a, b) = lemma_one_comes_twice(head, n);
        assert(head[a] == w[a] && head[b] == w[b]);
        let circle = w.subrange(a, b + 1);
        lemma_chain_part(g, w, a, b + 1);
        assert(circle[0] == w[a] && circle.last() == w[b]);
        assert(on_circle(g, w[a]));
        let lead = w.subrange(0, a + 1);
        lemma_chain_part(g, w, 0, a + 1);
        assert(lead[0] == i && lead.last() == w[a]);
        assert(leads_to_circle(g, i));
    }
    if leads_to_circle(g, i) {
        let lead = choose|w: Seq<usize>|
            is_chain(g, w) && w[0] == i && on_circle(g, #[trigger] w.last());
        let around = lemma_around(g, lead.last(), n + 1);
        lemma_chain_joined(g, lead, around);
        let long = lead + around.drop_first();
        let w = long.subrange(0, n as int + 2);
        lemma_chain_part(g, long, 0, n as int + 2);
        assert(w[0] == i);
        lemma_chain_does_not_settle(g, w, n);
    }
}

} // verus!
