//! Depth-first marking of the nodes of a directed graph, given by
//! adjacency lists, that a node reaches without passing through marked
//! nodes.
use vstd::prelude::*;

verus! {

/// The adjacency lists only name nodes of the graph.
pub open spec fn adj_wf(adj: Seq<Seq<usize>>) -> bool {
    forall|b: int, k: int| 0 <= b < adj.len() && 0 <= k < adj[b].len() ==> (#[trigger] adj[b][k]) < adj.len()
}

/// `path` follows the adjacency lists.
pub open spec fn is_path(adj: Seq<Seq<usize>>, path: Seq<int>) -> bool {
    &&& path.len() > 0
    &&& forall|k: int| 0 <= k < path.len() ==> 0 <= #[trigger] path[k] < adj.len()
    &&& forall|k: int| 0 <= k < path.len() - 1 ==> adj[path[k]].contains(#[trigger] path[k + 1] as usize)
}

/// No node of `path` is marked.
pub open spec fn avoids(marks: Seq<bool>, path: Seq<int>) -> bool {
    forall|k: int| 0 <= k < path.len() ==> !marks[#[trigger] path[k]]
}

/// `b` is reached from `start` by a path that avoids the marked nodes.
pub open spec fn reaches_avoiding(adj: Seq<Seq<usize>>, marks: Seq<bool>, start: int, b: int) -> bool {
    exists|path: Seq<int>| #[trigger] is_path(adj, path) && path[0] == start && path.last() == b && avoids(marks, path)
}

/// Marks every node that `start` reaches by a path through unmarked nodes.
/// Every newly marked node has all its successors marked.
pub fn mark_reachable(adj: &Vec<Vec<usize>>, marks: &mut Vec<bool>, start: usize)
    requires
        adj_wf(adj@.map_values(|v: Vec<usize>| v@)),
        old(marks)@.len() == adj@.len(),
        start < adj@.len(),
    ensures
        final(marks)@.len() == old(marks)@.len(),
        forall|b: int| 0 <= b < adj@.len() ==> (#[trigger] final(marks)@[b] <==> (old(marks)@[b]
            || reaches_avoiding(adj@.map_values(|v: Vec<usize>| v@), old(marks)@, start as int, b))),
        forall|b: int, k: int| 0 <= b < adj@.len() && !old(marks)@[b] && final(marks)@[b]
            && 0 <= k < adj@[b]@.len() ==> final(marks)@[#[trigger] adj@[b]@[k] as int],
{
    let ghost g = adj@.map_values(|v: Vec<usize>| v@);
    let ghost m0 = marks@;
    let ghost n = adj@.len();
    let ghost mut newly: Set<int> = Set::empty();
    let mut stack: Vec<usize> = Vec::new();
    stack.push(start);
    proof {
        assert(stack@[0] == start);
    }
    loop
        invariant
            g == adj@.map_values(|v: Vec<usize>| v@),
            adj_wf(g),
            n == adj@.len(),
            m0.len() == n,
            marks@.len() == n,
            start < n,
            newly.finite(),
            forall|b: int| #[trigger] newly.contains(b) ==> 0 <= b < n,
            forall|b: int| 0 <= b < n ==> (#[trigger] marks@[b] <==> (m0[b] || newly.contains(b))),
            forall|b: int| #[trigger] newly.contains(b) ==> !m0[b] && reaches_avoiding(g, m0, start as int, b),
            forall|s: int| 0 <= s < stack@.len() ==> (#[trigger] stack@[s]) < n,
            forall|s: int| 0 <= s < stack@.len() ==> (stack@[s] == start
                || exists|b: int| #[trigger] newly.contains(b) && g[b].contains(stack@[s])),
            marks@[start as int] || stack@.contains(start),
            forall|b: int, k: int| #[trigger] newly.contains(b) && 0 <= k < g[b].len()
                ==> marks@[#[trigger] g[b][k] as int] || stack@.contains(g[b][k]),
        ensures
            forall|b: int| 0 <= b < n ==> (#[trigger] marks@[b] <==> (m0[b] || newly.contains(b))),
            forall|b: int| #[trigger] newly.contains(b) ==> !m0[b] && reaches_avoiding(g, m0, start as int, b),
            marks@[start as int],
            forall|b: int, k: int| #[trigger] newly.contains(b) && 0 <= k < g[b].len() ==> marks@[#[trigger] g[b][k] as int],
        decreases n - newly.len(), stack@.len(),
    {
        proof {
            vstd::set_lib::lemma_int_range(0, n as int);
            assert(newly.subset_of(vstd::set_lib::set_int_range(0, n as int)));
            vstd::set_lib::lemma_len_subset(newly, vstd::set_lib::set_int_range(0, n as int));
        }
        if stack.len() == 0 {
            break;
        }
        let ghost st = stack@;
        let x = stack.pop().unwrap();
        proof {
            assert(st == stack@.push(x));
            assert(x == st[st.len() - 1]);
        }
        if marks[x] {
            proof {
                assert forall|b: int, k: int| #[trigger] newly.contains(b) && 0 <= k < g[b].len()
                    implies marks@[#[trigger] g[b][k] as int] || stack@.contains(g[b][k]) by {
                    if !marks@[g[b][k] as int] {
                        assert(st.contains(g[b][k]));
                        let t = choose|t: int| 0 <= t < st.len() && st[t] == g[b][k];
                        if t < stack@.len() {
                            assert(stack@[t] == g[b][k]);
                        }
                    }
                }
                if !marks@[start as int] {
                    let t = choose|t: int| 0 <= t < st.len() && st[t] == start;
                    if t < stack@.len() {
                        assert(stack@[t] == start);
                    }
                }
                assert forall|s: int| 0 <= s < stack@.len() implies (stack@[s] == start
                    || exists|b: int| #[trigger] newly.contains(b) && g[b].contains(stack@[s])) by {
                    assert(stack@[s] == st[s]);
                }
                assert forall|s: int| 0 <= s < stack@.len() implies (#[trigger] stack@[s]) < n by {
                    assert(stack@[s] == st[s]);
                }
            }
            continue;
        }
        // x is reached through unmarked nodes: from start directly, or from
        // a newly marked node
        let ghost xi = x as int;
        proof {
            assert(!m0[xi]);
            let t = (st.len() - 1) as int;
            assert(st[t] == x);
            if x == start {
                let path = seq![xi];
                assert(is_path(g, path));
                assert(avoids(m0, path));
                assert(reaches_avoiding(g, m0, start as int, xi));
            } else {
                let b = choose|b: int| #[trigger] newly.contains(b) && g[b].contains(st[t]);
                let path = choose|path: Seq<int>| #[trigger] is_path(g, path) && path[0] == start as int
                    && path.last() == b && avoids(m0, path);
                let p2 = path.push(xi);
                assert forall|k: int| 0 <= k < p2.len() - 1 implies g[p2[k]].contains(#[trigger] p2[k + 1] as usize) by {
                    if k < path.len() - 1 {
                        assert(p2[k] == path[k] && p2[k + 1] == path[k + 1]);
                    } else {
                        assert(p2[k] == b);
                        assert(p2[k + 1] == xi);
                    }
                }
                assert forall|k: int| 0 <= k < p2.len() implies 0 <= #[trigger] p2[k] < g.len() by {
                    if k < path.len() {
                        assert(p2[k] == path[k]);
                    }
                }
                assert forall|k: int| 0 <= k < p2.len() implies !m0[#[trigger] p2[k]] by {
                    if k < path.len() {
                        assert(p2[k] == path[k]);
                    }
                }
                assert(is_path(g, p2));
                assert(reaches_avoiding(g, m0, start as int, xi));
            }
        }
        marks.set(x, true);
        let ghost old_newly = newly;
        proof {
            newly = newly.insert(xi);
            assert(!old_newly.contains(xi));
        }
        let ghost before_push = stack@;
        let mut k: usize = 0;
        while k < adj[x].len()
            invariant
                g == adj@.map_values(|v: Vec<usize>| v@),
                adj_wf(g),
                n == adj@.len(),
                x < n,
                k <= g[xi].len(),
                xi == x as int,
                stack@.len() == before_push.len() + k,
                forall|s: int| 0 <= s < before_push.len() ==> stack@[s] == before_push[s],
                forall|s: int| 0 <= s < k ==> stack@[before_push.len() + s] == g[xi][s],
            decreases adj@[x as int]@.len() - k,
        {
            proof {
                assert(g[xi] == adj@[xi]@);
            }
            stack.push(adj[x][k]);
            k = k + 1;
        }
        proof {
            assert(g[xi] == adj@[xi]@);
            assert forall|s: int| 0 <= s < stack@.len() implies (#[trigger] stack@[s]) < n by {
                if s < before_push.len() {
                    assert(stack@[s] == st[s]);
                } else {
                    assert(stack@[s] == g[xi][s - before_push.len()]);
                }
            }
            assert forall|s: int| 0 <= s < stack@.len() implies (stack@[s] == start
                || exists|b: int| #[trigger] newly.contains(b) && g[b].contains(stack@[s])) by {
                if s < before_push.len() {
                    assert(stack@[s] == st[s]);
                    if st[s] != start {
                        let b = choose|b: int| #[trigger] old_newly.contains(b) && g[b].contains(st[s]);
                        assert(newly.contains(b));
                    }
                } else {
                    assert(stack@[s] == g[xi][s - before_push.len()]);
                    assert(newly.contains(xi));
                    assert(g[xi].contains(stack@[s]));
                }
            }
            assert forall|b: int, kk: int| #[trigger] newly.contains(b) && 0 <= kk < g[b].len()
                implies marks@[#[trigger] g[b][kk] as int] || stack@.contains(g[b][kk]) by {
                if b == xi {
                    assert(stack@[before_push.len() + kk] == g[b][kk]);
                } else {
                    assert(old_newly.contains(b));
                    if !marks@[g[b][kk] as int] {
                        assert(g[b][kk] != x);
                        assert(st.contains(g[b][kk]));
                        let t = choose|t: int| 0 <= t < st.len() && st[t] == g[b][kk];
                        assert(t < before_push.len());
                        assert(stack@[t] == g[b][kk]);
                    }
                }
            }
            if !marks@[start as int] {
                let t = choose|t: int| 0 <= t < st.len() && st[t] == start;
                assert(t < before_push.len());
                assert(stack@[t] == start);
            }
            vstd::set_lib::lemma_int_range(0, n as int);
            assert(newly.subset_of(vstd::set_lib::set_int_range(0, n as int)));
            vstd::set_lib::lemma_len_subset(newly, vstd::set_lib::set_int_range(0, n as int));
        }
    }
    proof {
        assert forall|b: int| 0 <= b < adj@.len() implies (#[trigger] marks@[b] <==> (m0[b]
            || reaches_avoiding(g, m0, start as int, b))) by {
            if reaches_avoiding(g, m0, start as int, b) && !m0[b] {
                let path = choose|path: Seq<int>| #[trigger] is_path(g, path) && path[0] == start as int
                    && path.last() == b && avoids(m0, path);
                assert(n == adj.len());
                lemma_path_marked(g, m0, marks@, newly, path, n as int);
            }
        }
        assert forall|b: int, kk: int| 0 <= b < adj@.len() && !m0[b] && marks@[b] && 0 <= kk < adj@[b]@.len()
            implies marks@[#[trigger] adj@[b]@[kk] as int] by {
            assert(newly.contains(b));
            assert(g[b] == adj@[b]@);
            assert(marks@[g[b][kk] as int]);
        }
    }
}

/// A path from a marked node through unmarked-at-first nodes stays marked
/// when every newly marked node has its successors marked.
proof fn lemma_path_marked(g: Seq<Seq<usize>>, m0: Seq<bool>, marks: Seq<bool>, newly: Set<int>, path: Seq<int>, n: int)
    requires
        is_path(g, path),
        avoids(m0, path),
        g.len() == n,
        n <= usize::MAX,
        marks.len() == n,
        m0.len() == n,
        marks[path[0]],
        forall|b: int| 0 <= b < n ==> (#[trigger] marks[b] <==> (m0[b] || newly.contains(b))),
        forall|b: int, k: int| #[trigger] newly.contains(b) && 0 <= k < g[b].len() ==> marks[#[trigger] g[b][k] as int],
    ensures
        marks[path.last()],
    decreases path.len(),
{
    if path.len() == 1 {
        assert(path.last() == path[0]);
    } else {
        let q = path.drop_last();
        assert forall|k: int| 0 <= k < q.len() - 1 implies g[q[k]].contains(#[trigger] q[k + 1] as usize) by {
            assert(q[k] == path[k] && q[k + 1] == path[k + 1]);
        }
        assert forall|k: int| 0 <= k < q.len() implies 0 <= #[trigger] q[k] < g.len() by {
            assert(q[k] == path[k]);
        }
        assert forall|k: int| 0 <= k < q.len() implies !m0[#[trigger] q[k]] by {
            assert(q[k] == path[k]);
        }
        lemma_path_marked(g, m0, marks, newly, q, n);
        let a = path[path.len() - 2];
        assert(q.last() == a);
        assert(marks[a]);
        assert(!m0[a]);
        assert(newly.contains(a));
        let j = path.len() - 2;
        assert(g[path[j]].contains(path[j + 1] as usize));
        assert(j + 1 == path.len() - 1);
        assert(g[a].contains(path[path.len() - 1] as usize));
        let k = choose|k: int| 0 <= k < g[a].len() && g[a][k] == path[path.len() - 1] as usize;
        assert(marks[g[a][k] as int]);
        assert(g[a][k] as int == path[path.len() - 1]);
    }
}

} // verus!
