//! Cycle detection in a directed graph given by adjacency lists, by
//! depth-first search.

use vstd::prelude::*;

verus! {

/// There is an edge from `u` to `v`.
pub open spec fn edge(adj: Seq<Vec<usize>>, u: int, v: int) -> bool {
    0 <= u < adj.len() && 0 <= v < adj.len() && adj[u]@.contains(v as usize)
}

/// Every neighbor is a node.
pub open spec fn well_formed(adj: Seq<Vec<usize>>) -> bool {
    forall|u: int, j: int| 0 <= u < adj.len() && 0 <= j < adj[u]@.len() ==> adj[u]@[j] < adj.len()
}

/// Consecutive entries of `p` are joined by edges.
pub open spec fn is_walk(adj: Seq<Vec<usize>>, p: Seq<usize>) -> bool {
    forall|i: int| 0 < i < p.len() ==> edge(adj, p[i - 1] as int, #[trigger] p[i] as int)
}

/// `c` is a cycle: a non-empty walk with an edge from its last node back
/// to its first.
pub open spec fn is_graph_cycle(adj: Seq<Vec<usize>>, c: Seq<usize>) -> bool {
    &&& c.len() > 0
    &&& is_walk(adj, c)
    &&& edge(adj, c.last() as int, c[0] as int)
}

/// The graph has a cycle.
pub open spec fn has_graph_cycle(adj: Seq<Vec<usize>>) -> bool {
    exists|c: Seq<usize>| is_graph_cycle(adj, c)
}

/// A finished node: visited and no longer on the search stack.
pub open spec fn black(visited: Seq<bool>, on_stack: Seq<bool>, u: int) -> bool {
    visited[u] && !on_stack[u]
}

/// Number of visited nodes.
pub open spec fn count_visited(v: Seq<bool>) -> nat
    decreases v.len(),
{
    if v.len() == 0 {
        0
    } else {
        count_visited(v.drop_last()) + if v.last() { 1nat } else { 0nat }
    }
}

proof fn lemma_count_zero(v: Seq<bool>)
    requires
        forall|i: int| 0 <= i < v.len() ==> !v[i],
    ensures
        count_visited(v) == 0,
    decreases v.len(),
{
    if v.len() > 0 {
        lemma_count_zero(v.drop_last());
    }
}

proof fn lemma_count_bound(v: Seq<bool>)
    ensures
        count_visited(v) <= v.len(),
    decreases v.len(),
{
    if v.len() > 0 {
        lemma_count_bound(v.drop_last());
    }
}

proof fn lemma_count_mono(v0: Seq<bool>, v1: Seq<bool>)
    requires
        v0.len() == v1.len(),
        forall|i: int| 0 <= i < v0.len() && v0[i] ==> v1[i],
    ensures
        count_visited(v0) <= count_visited(v1),
    decreases v0.len(),
{
    if v0.len() > 0 {
        lemma_count_mono(v0.drop_last(), v1.drop_last());
    }
}

proof fn lemma_count_set(v: Seq<bool>, i: int)
    requires
        0 <= i < v.len(),
        !v[i],
    ensures
        count_visited(v.update(i, true)) == count_visited(v) + 1,
    decreases v.len(),
{
    let w = v.update(i, true);
    if i == v.len() - 1 {
        assert(w.drop_last() =~= v.drop_last());
    } else {
        assert(w.drop_last() =~= v.drop_last().update(i, true));
        lemma_count_set(v.drop_last(), i);
    }
}

/// The search invariant: the stack is a walk listing exactly the nodes
/// marked on the stack; every finished node's neighbors are finished, and
/// earlier.
pub open spec fn dfs_inv(
    adj: Seq<Vec<usize>>,
    visited: Seq<bool>,
    on_stack: Seq<bool>,
    path: Seq<usize>,
    finish: Seq<usize>,
    counter: usize,
) -> bool {
    let n = adj.len();
    &&& well_formed(adj)
    &&& visited.len() == n
    &&& on_stack.len() == n
    &&& finish.len() == n
    &&& forall|i: int| 0 <= i < path.len() ==> path[i] < n && on_stack[path[i] as int]
    &&& forall|i: int, j: int| 0 <= i < j < path.len() ==> path[i] != path[j]
    &&& forall|u: int| 0 <= u < n && on_stack[u] ==> visited[u] && path.contains(u as usize)
    &&& is_walk(adj, path)
    &&& counter + path.len() <= count_visited(visited)
    &&& forall|u: int| 0 <= u < n && black(visited, on_stack, u) ==> finish[u] < counter
    &&& forall|u: int, j: int| 0 <= u < n && black(visited, on_stack, u) && 0 <= j < adj[u]@.len()
        ==> black(visited, on_stack, adj[u]@[j] as int) && finish[adj[u]@[j] as int] < finish[u]
}

/// Nodes finished before stay finished, at the same time.
pub open spec fn black_kept(
    v0: Seq<bool>, s0: Seq<bool>, f0: Seq<usize>,
    v1: Seq<bool>, s1: Seq<bool>, f1: Seq<usize>,
) -> bool {
    &&& forall|u: int| 0 <= u < v0.len() && v0[u] ==> v1[u]
    &&& forall|u: int| 0 <= u < v0.len() && black(v0, s0, u) ==> black(v1, s1, u) && f1[u] == f0[u]
}

/// Along a walk whose nodes all have later-finishing predecessors, finish
/// times strictly decrease.
proof fn lemma_walk_finish_decreases(adj: Seq<Vec<usize>>, finish: Seq<usize>, c: Seq<usize>, i: int)
    requires
        is_walk(adj, c),
        0 <= i < c.len(),
        forall|k: int| 0 <= k < c.len() ==> c[k] < adj.len(),
        finish.len() == adj.len(),
        forall|u: int, v: int| edge(adj, u, v) ==> finish[v] < finish[u],
    ensures
        finish[c[i] as int] + i <= finish[c[0] as int],
    decreases i,
{
    if i > 0 {
        lemma_walk_finish_decreases(adj, finish, c, i - 1);
        assert(edge(adj, c[i - 1] as int, c[i] as int));
        assert(finish[c[i] as int] < finish[c[i - 1] as int]);
    }
}

/// A graph in which every edge goes to an earlier-finished node has no
/// cycle.
proof fn lemma_no_cycle(adj: Seq<Vec<usize>>, finish: Seq<usize>)
    requires
        finish.len() == adj.len(),
        forall|u: int, v: int| edge(adj, u, v) ==> finish[v] < finish[u],
    ensures
        !has_graph_cycle(adj),
{
    if has_graph_cycle(adj) {
        let c = choose|c: Seq<usize>| is_graph_cycle(adj, c);
        assert forall|k: int| 0 <= k < c.len() implies c[k] < adj.len() by {
            if k > 0 {
                assert(edge(adj, c[k - 1] as int, c[k] as int));
            } else {
                assert(edge(adj, c.last() as int, c[0] as int));
            }
        }
        lemma_walk_finish_decreases(adj, finish, c, c.len() - 1);
        assert(edge(adj, c.last() as int, c[0] as int));
    }
}

/// Depth-first search from the unvisited `node`; returns a cycle if one is
/// met.
fn dfs(
    adj: &Vec<Vec<usize>>,
    node: usize,
    visited: &mut Vec<bool>,
    on_stack: &mut Vec<bool>,
    path: &mut Vec<usize>,
    finish: &mut Vec<usize>,
    counter: &mut usize,
) -> (r: Option<Vec<usize>>)
    requires
        dfs_inv(adj@, old(visited)@, old(on_stack)@, old(path)@, old(finish)@, *old(counter)),
        node < adj@.len(),
        !old(visited)@[node as int],
        old(path)@.len() > 0 ==> edge(adj@, old(path)@.last() as int, node as int),
    ensures
        match r {
            Some(c) => is_graph_cycle(adj@, c@),
            None => {
                &&& dfs_inv(adj@, final(visited)@, final(on_stack)@, final(path)@, final(finish)@, *final(counter))
                &&& final(path)@ == old(path)@
                &&& final(on_stack)@ == old(on_stack)@
                &&& black(final(visited)@, final(on_stack)@, node as int)
                &&& black_kept(old(visited)@, old(on_stack)@, old(finish)@, final(visited)@, final(on_stack)@, final(finish)@)
            },
        },
    decreases adj@.len() - count_visited(old(visited)@),
{
    let n = adj.len();
    let ghost v0 = visited@;
    let ghost s0 = on_stack@;
    let ghost f0 = finish@;
    let ghost p0 = path@;
    proof {
        lemma_count_set(v0, node as int);
        lemma_count_bound(v0.update(node as int, true));
        assert(!s0[node as int]);
        assert(!p0.contains(node)) by {
            if p0.contains(node) {
                let i = choose|i: int| 0 <= i < p0.len() && p0[i] == node;
                assert(s0[p0[i] as int]);
            }
        }
    }
    visited.set(node, true);
    on_stack.set(node, true);
    path.push(node);
    proof {
        assert(path@ == p0.push(node));
        assert forall|i: int| 0 <= i < path@.len() implies path@[i] < adj@.len() && on_stack@[path@[i] as int] by {
            if i < p0.len() {
                assert(path@[i] == p0[i]);
            }
        }
        assert forall|i: int, j: int| 0 <= i < j < path@.len() implies path@[i] != path@[j] by {
            if j == p0.len() {
                assert(p0.contains(p0[i]));
            } else {
                assert(path@[i] == p0[i] && path@[j] == p0[j]);
            }
        }
        assert forall|u: int| 0 <= u < adj@.len() && on_stack@[u] implies visited@[u] && path@.contains(u as usize) by {
            if u == node {
                assert(path@[p0.len() as int] == node);
            } else {
                assert(s0[u]);
                let i = choose|i: int| 0 <= i < p0.len() && p0[i] == u as usize;
                assert(path@[i] == u as usize);
            }
        }
        assert forall|i: int| 0 < i < path@.len() implies edge(adj@, path@[i - 1] as int, #[trigger] path@[i] as int) by {
            if i < p0.len() {
                assert(path@[i - 1] == p0[i - 1] && path@[i] == p0[i]);
            } else {
                assert(path@[i - 1] == p0.last());
            }
        }
        assert forall|u: int| 0 <= u < adj@.len() && black(visited@, on_stack@, u) implies black(v0, s0, u) by {}
        assert forall|u: int, j: int| 0 <= u < adj@.len() && black(visited@, on_stack@, u) && 0 <= j < adj@[u]@.len()
            implies black(visited@, on_stack@, adj@[u]@[j] as int) && finish@[adj@[u]@[j] as int] < finish@[u] by {
            assert(black(v0, s0, u));
            assert(black(v0, s0, adj@[u]@[j] as int));
        }
        assert(well_formed(adj@));
        assert(visited@.len() == adj@.len());
        assert(on_stack@.len() == adj@.len());
        assert(finish@.len() == adj@.len());
        assert(is_walk(adj@, path@));
        assert(*counter + path@.len() <= count_visited(visited@));
        assert forall|u: int| 0 <= u < adj@.len() && black(visited@, on_stack@, u) implies finish@[u] < *counter by {
            assert(black(v0, s0, u));
            assert(finish@[u] == f0[u]);
        }
        assert(dfs_inv(adj@, visited@, on_stack@, path@, finish@, *counter));
    }
    let mut k: usize = 0;
    while k < adj[node].len()
        invariant
            node < adj@.len(),
            dfs_inv(adj@, visited@, on_stack@, path@, finish@, *counter),
            path@ == p0.push(node),
            on_stack@ == s0.update(node as int, true),
            visited@[node as int],
            !s0[node as int],
            !p0.contains(node),
            v0.len() == adj@.len(),
            black_kept(v0.update(node as int, true), s0.update(node as int, true), f0, visited@, on_stack@, finish@),
            count_visited(v0) < count_visited(visited@),
            dfs_inv(adj@, v0, s0, p0, f0, *old(counter)),
            v0 == old(visited)@,
            k <= adj@[node as int]@.len(),
            forall|j: int| 0 <= j < k ==> black(visited@, on_stack@, adj@[node as int]@[j] as int),
        decreases adj@[node as int]@.len() - k,
    {
        let v = adj[node][k];
        assert(v < adj@.len());
        if !visited[v] {
            let ghost v1 = visited@;
            let ghost s1 = on_stack@;
            let ghost f1 = finish@;
            proof {
                assert(path@.last() == node);
                assert(adj@[node as int]@[k as int] == v);
                assert(adj@[node as int]@.contains(v));
                lemma_count_bound(visited@);
                assert(count_visited(v0) < count_visited(visited@));
                assert(count_visited(visited@) <= adj@.len());
            }
            let r = dfs(adj, v, visited, on_stack, path, finish, counter);
            match r {
                Some(c) => { return Some(c); },
                None => {
                    proof {
                        lemma_count_mono(v1, visited@);
                    }
                },
            }
        } else if on_stack[v] {
            // v is on the stack: the stack from v to node, then back to v, is a cycle.
            assert(path@.contains(v));
            let mut pos: usize = 0;
            while pos < path.len() && path[pos] != v
                invariant
                    pos <= path@.len(),
                    path@.contains(v),
                    forall|i: int| 0 <= i < pos ==> path@[i] != v,
                decreases path@.len() - pos,
            {
                pos += 1;
            }
            proof {
                if pos >= path@.len() {
                    let w = choose|w: int| 0 <= w < path@.len() && path@[w] == v;
                    assert(path@[w] != v);
                }
            }
            let mut c: Vec<usize> = Vec::new();
            let mut q: usize = pos;
            while q < path.len()
                invariant
                    pos <= q <= path@.len(),
                    c@ == path@.subrange(pos as int, q as int),
                decreases path@.len() - q,
            {
                c.push(path[q]);
                q += 1;
                assert(c@ =~= path@.subrange(pos as int, q as int));
            }
            proof {
                assert(c@ == path@.subrange(pos as int, path@.len() as int));
                assert(c@[0] == v);
                assert(c@.last() == node);
                assert(adj@[node as int]@[k as int] == v);
                assert(adj@[node as int]@.contains(v));
                assert forall|i: int| 0 < i < c@.len() implies edge(adj@, c@[i - 1] as int, #[trigger] c@[i] as int) by {
                    assert(c@[i - 1] == path@[pos + i - 1] && c@[i] == path@[pos + i]);
                }
            }
            return Some(c);
        }
        k += 1;
    }
    let ghost v2 = visited@;
    let ghost s2 = on_stack@;
    let ghost f2 = finish@;
    let ghost c2 = *counter;
    proof {
        lemma_count_bound(visited@);
        assert(path@.len() >= 1);
    }
    path.pop();
    on_stack.set(node, false);
    finish.set(node, *counter);
    *counter = *counter + 1;
    proof {
        assert(path@ =~= p0);
        assert(on_stack@ =~= s0);
        assert forall|u: int| 0 <= u < adj@.len() && black(visited@, on_stack@, u) && u != node
            implies black(v2, s2, u) by {}
        assert forall|u: int, j: int| 0 <= u < adj@.len() && black(visited@, on_stack@, u) && 0 <= j < adj@[u]@.len()
            implies black(visited@, on_stack@, adj@[u]@[j] as int) && finish@[adj@[u]@[j] as int] < finish@[u] by {
            let w = adj@[u]@[j] as int;
            if u == node as int {
                assert(black(v2, s2, w));
                assert(w != node);
            } else {
                assert(black(v2, s2, u));
                assert(black(v2, s2, w));
                assert(w != node);
            }
        }
        assert forall|i: int| 0 <= i < path@.len() implies path@[i] < adj@.len() && on_stack@[path@[i] as int] by {
            assert(p0.contains(path@[i]));
            assert(path@[i] != node);
        }
        assert(well_formed(adj@));
        assert(is_walk(adj@, path@));
        assert(*counter + path@.len() <= count_visited(visited@));
        assert forall|u: int| 0 <= u < adj@.len() && on_stack@[u] implies visited@[u] && path@.contains(u as usize) by {
            assert(s0[u]);
        }
        assert forall|u: int| 0 <= u < adj@.len() && black(visited@, on_stack@, u) implies finish@[u] < *counter by {
            if u != node {
                assert(black(v2, s2, u));
            }
        }
        assert(dfs_inv(adj@, visited@, on_stack@, path@, finish@, *counter));
        assert(black_kept(v0, s0, f0, visited@, on_stack@, finish@)) by {
            assert forall|u: int| 0 <= u < v0.len() && black(v0, s0, u) implies black(visited@, on_stack@, u) && finish@[u] == f0[u] by {
                assert(u != node);
                assert(black(v0.update(node as int, true), s0.update(node as int, true), u));
            }
        }
    }
    None
}

/// A cycle of the graph, if it has one.
pub fn find_graph_cycle(adj: &Vec<Vec<usize>>) -> (r: Option<Vec<usize>>)
    requires
        well_formed(adj@),
    ensures
        match r {
            Some(c) => is_graph_cycle(adj@, c@),
            None => !has_graph_cycle(adj@),
        },
{
    let n = adj.len();
    let mut visited: Vec<bool> = Vec::new();
    let mut on_stack: Vec<bool> = Vec::new();
    let mut finish: Vec<usize> = Vec::new();
    let mut i: usize = 0;
    while i < n
        invariant
            i <= n,
            n == adj@.len(),
            visited@.len() == i,
            on_stack@.len() == i,
            finish@.len() == i,
            forall|j: int| 0 <= j < i ==> !visited@[j] && !on_stack@[j],
        decreases n - i,
    {
        visited.push(false);
        on_stack.push(false);
        finish.push(0);
        i += 1;
    }
    let mut path: Vec<usize> = Vec::new();
    let mut counter: usize = 0;
    proof {
        assert(count_visited(visited@) == 0) by {
            lemma_count_zero(visited@);
        }
        assert(dfs_inv(adj@, visited@, on_stack@, path@, finish@, counter));
    }
    let mut u: usize = 0;
    while u < n
        invariant
            u <= n,
            n == adj@.len(),
            dfs_inv(adj@, visited@, on_stack@, path@, finish@, counter),
            path@.len() == 0,
            forall|j: int| 0 <= j < u ==> visited@[j],
        decreases n - u,
    {
        if !visited[u] {
            match dfs(adj, u, &mut visited, &mut on_stack, &mut path, &mut finish, &mut counter) {
                Some(c) => { return Some(c); },
                None => {},
            }
        }
        u += 1;
    }
    proof {
        assert forall|w: int| 0 <= w < n implies black(visited@, on_stack@, w) by {
            if on_stack@[w] {
                assert(path@.contains(w as usize));
            }
        }
        assert forall|a: int, b: int| edge(adj@, a, b) implies finish@[b] < finish@[a] by {
            let j = choose|j: int| 0 <= j < adj@[a]@.len() && adj@[a]@[j] == b as usize;
        }
        lemma_no_cycle(adj@, finish@);
    }
    None
}

} // verus!
