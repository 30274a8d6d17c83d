use vstd::prelude::*;

use vstd::relations::injective_on;
use vstd::set_lib::lemma_int_range;
use vstd::set_lib::lemma_len_subset;
use vstd::set_lib::lemma_map_size;
use vstd::set_lib::set_int_range;

use crate::graph::Graph;
use crate::util::filled_grid;

verus! {

/// A graph node: a cell as an `(x, y)` pair.
pub type Node = (usize, usize);

/// `p` is a walk of `g` from `s` to `t`: non-empty, starting at `s`, ending
/// at `t`, every consecutive pair joined by a graph edge.
pub open spec fn is_path(g: Graph, p: Seq<Node>, s: Node, t: Node) -> bool {
    &&& p.len() >= 1
    &&& p[0] == s
    &&& p[p.len() - 1] == t
    &&& forall|i: int| 0 <= i < p.len() - 1 ==> #[trigger] g.edge(p[i], p[i + 1])
}

/// There is a walk of exactly `n` edges from `s` to `t` in `g`.
pub open spec fn has_path_n(g: Graph, s: Node, t: Node, n: nat) -> bool
    decreases n,
{
    if n == 0 {
        s == t
    } else {
        exists|m: Node| g.edge(m, t) && has_path_n(g, s, m, (n - 1) as nat)
    }
}

/// Every walk yields a step count.
proof fn lemma_is_path_to_has_path_n(g: Graph, p: Seq<Node>, s: Node, t: Node)
    requires
        is_path(g, p, s, t),
    ensures
        has_path_n(g, s, t, (p.len() - 1) as nat),
    decreases p.len(),
{
    if p.len() == 1 {
    } else {
        let q = p.drop_last();
        let m = p[p.len() - 2];
        assert(forall|i: int| 0 <= i < q.len() - 1 ==> #[trigger] g.edge(q[i], q[i + 1])) by {
            assert(forall|i: int| 0 <= i < q.len() ==> q[i] == p[i]);
        }
        lemma_is_path_to_has_path_n(g, q, s, m);
        assert(g.edge(p[p.len() - 2], p[(p.len() - 2) + 1]));
        assert(has_path_n(g, s, t, (p.len() - 1) as nat)) by {
            assert(g.edge(m, t) && has_path_n(g, s, m, (p.len() - 2) as nat));
        }
    }
}

/// A sequence of distinct in-bounds nodes has at most `width * height`
/// entries.
proof fn lemma_queue_len_bound(q: Seq<Node>, w: int, h: int)
    requires
        q.no_duplicates(),
        1 <= w,
        1 <= h,
        forall|i: int| 0 <= i < q.len() ==> (#[trigger] q[i]).0 < w && q[i].1 < h,
    ensures
        q.len() <= w * h,
{
    q.unique_seq_to_set();
    let s = q.to_set();
    let f = |n: Node| n.1 as int * w + n.0 as int;
    assert(injective_on(f, s)) by {
        assert forall|a: Node, b: Node| s.contains(a) && s.contains(b) && #[trigger] f(a)
            == #[trigger] f(b) implies a == b by {
            assert(a.1 as int * w + a.0 == b.1 as int * w + b.0 ==> a.0 == b.0 && a.1 == b.1)
                by (nonlinear_arith)
                requires
                    a.0 < w,
                    b.0 < w,
            ;
        }
    }
    let img = s.map(f);
    lemma_map_size(s, img, f);
    assert(img.subset_of(set_int_range(0, w * h))) by {
        assert forall|i: int| img.contains(i) implies 0 <= i < w * h by {
            let n = choose|n: Node| s.contains(n) && f(n) == i;
            assert(0 <= n.1 as int * w + n.0 < w * h) by (nonlinear_arith)
                requires
                    0 <= n.0 < w,
                    0 <= n.1 < h,
            ;
        }
    }
    lemma_int_range(0, w * h);
    lemma_len_subset(img, set_int_range(0, w * h));
}

/// The breadth-first search invariant over the ever-growing queue `q`,
/// the index `head` of the next node to expand, and the discovery
/// distances `dist`.
pub open spec fn bfs_inv(g: Graph, start: Node, q: Seq<Node>, head: int, dist: Map<Node, nat>) -> bool {
    &&& g.wf()
    &&& q.len() >= 1
    &&& q[0] == start
    &&& 0 <= head <= q.len()
    &&& q.no_duplicates()
    &&& forall|i: int| 0 <= i < q.len() ==> g.node_in_bounds(#[trigger] q[i])
    &&& forall|i: int| 0 <= i < q.len() ==> dist.contains_key(#[trigger] q[i])
    &&& dist[start] == 0
    &&& forall|i: int| 0 <= i < q.len() ==> dist[#[trigger] q[i]] <= i
    &&& forall|i: int, j: int|
        0 <= i <= j < q.len() ==> dist[#[trigger] q[i]] <= dist[#[trigger] q[j]]
    &&& forall|i: int| 0 <= i < q.len() ==> has_path_n(g, start, #[trigger] q[i], dist[q[i]])
    &&& forall|i: int, k: int|
        0 <= i < head && 0 <= k < g.adj_of(q[i].0 as int, q[i].1 as int).len() ==> {
            let m = #[trigger] g.adj_of(q[i].0 as int, q[i].1 as int)[k];
            q.contains(m) && dist[m] <= dist[q[i]] + 1
        }
}

/// The cut argument of breadth-first search: while the invariant holds, any
/// node that a walk of `k` edges reaches, where `k` is below the distance of
/// the next node to expand (or the queue is exhausted), has already been
/// expanded, and its recorded distance is at most `k`.
proof fn lemma_bfs_cut(
    g: Graph,
    start: Node,
    q: Seq<Node>,
    head: int,
    dist: Map<Node, nat>,
    v: Node,
    k: nat,
)
    requires
        bfs_inv(g, start, q, head, dist),
        has_path_n(g, start, v, k),
        head == q.len() || k < dist[q[head]],
    ensures
        exists|i: int| 0 <= i < head && q[i] == v,
        dist[v] <= k,
    decreases k,
{
    if k == 0 {
        assert(v == start);
        if head < q.len() {
            assert(dist[q[head]] > 0);
            assert(q[head] != start);
        }
        assert(0 < head && q[0] == v);
    } else {
        let m = choose|m: Node| g.edge(m, v) && has_path_n(g, start, m, (k - 1) as nat);
        lemma_bfs_cut(g, start, q, head, dist, m, (k - 1) as nat);
        let i = choose|i: int| 0 <= i < head && q[i] == m;
        let al = g.adj_of(m.0 as int, m.1 as int);
        assert(al.contains(v));
        let j = choose|j: int| 0 <= j <= al.len() - 1 && al[j] == v;
        assert(q.contains(v) && dist[v] <= dist[m] + 1) by {
            assert(g.adj_of(q[i].0 as int, q[i].1 as int)[j] == v);
        }
        assert(dist[v] <= k);
        let vi = choose|vi: int| 0 <= vi < q.len() && q[vi] == v;
        if vi >= head {
            assert(head < q.len());
            assert(dist[q[head]] <= dist[q[vi]]);
            assert(false);
        }
        assert(0 <= vi < head && q[vi] == v);
    }
}

/// One expansion step of the search: enqueue the not-yet-discovered
/// neighbors of `node` in adjacency-list order, marking each discovered and
/// recording `node` as its first-discovered predecessor.
pub open spec fn bfs_expand(
    node: Node,
    nbs: Seq<Node>,
    q: Seq<Node>,
    vis: Set<Node>,
    prev: Map<Node, Node>,
) -> (Seq<Node>, Set<Node>, Map<Node, Node>)
    decreases nbs.len(),
{
    if nbs.len() == 0 {
        (q, vis, prev)
    } else {
        let m = nbs[0];
        if vis.contains(m) {
            bfs_expand(node, nbs.drop_first(), q, vis, prev)
        } else {
            bfs_expand(node, nbs.drop_first(), q.push(m), vis.insert(m), prev.insert(m, node))
        }
    }
}

/// The search loop: pop nodes first-in first-out, expanding each, until the
/// goal is popped (found) or the queue is exhausted. Yields whether the
/// goal was found and the first-discovered-predecessor map.
pub open spec fn bfs_search(
    g: Graph,
    goal: Node,
    q: Seq<Node>,
    head: int,
    vis: Set<Node>,
    prev: Map<Node, Node>,
    fuel: nat,
) -> (bool, Map<Node, Node>)
    decreases fuel,
{
    if head >= q.len() || fuel == 0 {
        (false, prev)
    } else {
        let node = q[head];
        if node == goal {
            (true, prev)
        } else {
            let t = bfs_expand(node, g.adj_of(node.0 as int, node.1 as int), q, vis, prev);
            bfs_search(g, goal, t.0, head + 1, t.1, t.2, (fuel - 1) as nat)
        }
    }
}

/// The path that the predecessor chain spells out, walked back from `cur`
/// and read in forward order; empty where the chain breaks off before
/// reaching `start`.
pub open spec fn bfs_backtrack(prev: Map<Node, Node>, start: Node, cur: Node, fuel: nat) -> Seq<
    Node,
>
    decreases fuel,
{
    if cur == start {
        seq![start]
    } else if fuel == 0 || !prev.contains_key(cur) {
        Seq::empty()
    } else {
        let r = bfs_backtrack(prev, start, prev[cur], (fuel - 1) as nat);
        if r.len() == 0 {
            Seq::empty()
        } else {
            r.push(cur)
        }
    }
}

/// The exact path that breadth-first search finds: nodes are popped
/// first-in first-out, neighbors tried in adjacency-list order, each node
/// discovered at most once with its first predecessor kept, and the route
/// read back along the predecessor chain. A search from a cell to itself
/// yields that cell alone; one from or to a cell outside the grid finds
/// nothing.
pub open spec fn spec_bfs_path(g: Graph, start: Node, goal: Node) -> Seq<Node> {
    if start == goal {
        seq![start]
    } else if !g.node_in_bounds(start) || !g.node_in_bounds(goal) {
        Seq::empty()
    } else {
        let fuel = (g.width * g.height) as nat;
        let r = bfs_search(g, goal, seq![start], 0, Set::empty().insert(start), Map::empty(), fuel);
        if r.0 {
            bfs_backtrack(r.1, start, goal, fuel)
        } else {
            Seq::empty()
        }
    }
}

/// A predecessor chain whose every link drops the discovery distance by
/// one reaches the start, giving a backtracked path one longer than the
/// distance of the node it begins at.
proof fn lemma_backtrack_reaches_start(
    q: Seq<Node>,
    start: Node,
    dist: Map<Node, nat>,
    prevmap: Map<Node, Node>,
    v: Node,
    fuel: nat,
)
    requires
        q.contains(v),
        dist.contains_key(start),
        dist[start] == 0,
        forall|i: int| 0 <= i < q.len() ==> dist.contains_key(#[trigger] q[i]),
        forall|n: Node|
            #[trigger] q.contains(n) && n != start ==> prevmap.contains_key(n) && q.contains(
                prevmap[n],
            ) && dist[prevmap[n]] + 1 == dist[n],
        fuel >= dist[v],
    ensures
        bfs_backtrack(prevmap, start, v, fuel).len() == dist[v] + 1,
        bfs_backtrack(prevmap, start, v, fuel).last() == v,
    decreases dist[v],
{
    if v == start {
    } else {
        let u = prevmap[v];
        let vi = choose|vi: int| 0 <= vi < q.len() && q[vi] == v;
        assert(dist.contains_key(v));
        assert(dist[v] >= 1);
        lemma_backtrack_reaches_start(q, start, dist, prevmap, u, (fuel - 1) as nat);
    }
}

/// No walk joins two distinct nodes when either lies outside the grid:
/// only in-bounds nodes have edges, and adjacency lists name only in-bounds
/// cells.
proof fn lemma_no_path_outside(g: Graph, start: Node, goal: Node)
    requires
        g.wf(),
        start != goal,
        !g.node_in_bounds(start) || !g.node_in_bounds(goal),
    ensures
        !(exists|p: Seq<Node>| is_path(g, p, start, goal)),
{
    if exists|p: Seq<Node>| is_path(g, p, start, goal) {
        let p = choose|p: Seq<Node>| is_path(g, p, start, goal);
        assert(p.len() >= 2);
        let i0: int = 0;
        assert(g.edge(p[i0], p[i0 + 1]));
        assert(g.node_in_bounds(start));
        let j: int = p.len() - 2;
        assert(g.edge(p[j], p[j + 1]));
        let a = p[j];
        let al = g.adj_of(a.0 as int, a.1 as int);
        assert(al.contains(goal));
        let k = choose|k: int| 0 <= k < al.len() && al[k] == goal;
        assert(g.node_in_bounds(g.adj[a.1 as int][a.0 as int][k]));
        assert(false);
    }
}

/// Walks the recorded predecessors back from the found goal, then reverses
/// the chain into start-to-goal order: exactly the backtracked route of the
/// spec-level search, a hop-shortest duplicate-free walk.
fn reconstruct_path(
    prev: &Vec<Vec<Option<Node>>>,
    start: Node,
    goal: Node,
    Ghost(g): Ghost<Graph>,
    Ghost(q): Ghost<Seq<Node>>,
    Ghost(head): Ghost<int>,
    Ghost(dist): Ghost<Map<Node, nat>>,
    Ghost(prevmap): Ghost<Map<Node, Node>>,
    Ghost(total): Ghost<nat>,
) -> (path: Vec<Node>)
    requires
        bfs_inv(g, start, q, head, dist),
        prev@.len() == g.height,
        forall|y: int| 0 <= y < g.height ==> (#[trigger] prev@[y]).len() == g.width,
        forall|i: int|
            0 <= i < q.len() && q[i] != start ==> {
                let pv = #[trigger] prev@[q[i].1 as int][q[i].0 as int];
                &&& pv is Some
                &&& q.contains(pv->Some_0)
                &&& g.edge(pv->Some_0, q[i])
                &&& dist[pv->Some_0] + 1 == dist[q[i]]
                &&& prevmap.contains_key(q[i])
                &&& prevmap[q[i]] == pv->Some_0
            },
        head < q.len(),
        q[head] == goal,
        total == (g.width * g.height) as nat,
    ensures
        path@ == bfs_backtrack(prevmap, start, goal, total),
        path@.len() == dist[goal] + 1,
        is_path(g, path@, start, goal),
        path@.no_duplicates(),
{
    let ghost dgoal = dist[goal];
    let mut rpath: Vec<Node> = Vec::new();
    let mut current: Node = goal;
    proof {
        assert(q.contains(goal)) by {
            assert(q[head] == goal);
        }
        lemma_queue_len_bound(q, g.width as int, g.height as int);
        assert(dgoal <= head);
        assert(dgoal <= total);
        // the predecessor chain read off the grid drops distance by one
        assert forall|nn: Node| #[trigger] q.contains(nn) && nn != start implies
            prevmap.contains_key(nn) && q.contains(prevmap[nn]) && dist[prevmap[nn]] + 1
            == dist[nn] by {
            let i = choose|i: int| 0 <= i < q.len() && q[i] == nn;
            assert(prev@[q[i].1 as int][q[i].0 as int] is Some);
        }
        assert(rpath@.reverse() =~= Seq::<Node>::empty());
        assert(bfs_backtrack(prevmap, start, goal, total) + Seq::<Node>::empty()
            =~= bfs_backtrack(prevmap, start, goal, total));
    }
    while current.0 != start.0 || current.1 != start.1
        invariant
            g.wf(),
            bfs_inv(g, start, q, head, dist),
            prev@.len() == g.height,
            forall|y: int| 0 <= y < g.height ==> (#[trigger] prev@[y]).len() == g.width,
            forall|i: int|
                0 <= i < q.len() && q[i] != start ==> {
                    let pv = #[trigger] prev@[q[i].1 as int][q[i].0 as int];
                    &&& pv is Some
                    &&& q.contains(pv->Some_0)
                    &&& g.edge(pv->Some_0, q[i])
                    &&& dist[pv->Some_0] + 1 == dist[q[i]]
                    &&& prevmap.contains_key(q[i])
                    &&& prevmap[q[i]] == pv->Some_0
                },
            forall|nn: Node|
                #[trigger] q.contains(nn) && nn != start ==> prevmap.contains_key(nn)
                    && q.contains(prevmap[nn]) && dist[prevmap[nn]] + 1 == dist[nn],
            q.contains(current),
            dgoal == dist[goal],
            dgoal <= total,
            dist[current] + rpath@.len() == dgoal,
            rpath@.len() == 0 ==> current == goal,
            rpath@.len() > 0 ==> rpath@[0] == goal && g.edge(current, rpath@[rpath@.len() - 1]),
            forall|j: int| 0 <= j < rpath@.len() ==> dist[#[trigger] rpath@[j]] == dgoal - j,
            forall|j: int| 0 <= j < rpath@.len() - 1 ==> g.edge(rpath@[j + 1], #[trigger] rpath@[j]),
            bfs_backtrack(prevmap, start, goal, total) == bfs_backtrack(
                prevmap,
                start,
                current,
                (total - rpath@.len()) as nat,
            ) + rpath@.reverse(),
        decreases dist[current],
    {
        proof {
            let ci = choose|ci: int| 0 <= ci < q.len() && q[ci] == current;
            assert(g.node_in_bounds(q[ci]));
            assert(prev@[current.1 as int].len() == g.width);
        }
        let pv = prev[current.1][current.0];
        match pv {
            Some(u) => {
                let ghost oldr = rpath@;
                proof {
                    // one unfolding of the backtrack mirrors this step
                    assert(prevmap[current] == u);
                    let f = (total - oldr.len()) as nat;
                    assert(dist[current] >= 1);
                    assert(dist.contains_key(start)) by {
                        assert(dist.contains_key(q[0]));
                    }
                    lemma_backtrack_reaches_start(q, start, dist, prevmap, u, (f - 1) as nat);
                    assert(bfs_backtrack(prevmap, start, current, f) == bfs_backtrack(
                        prevmap,
                        start,
                        u,
                        (f - 1) as nat,
                    ).push(current));
                    assert((oldr.push(current)).reverse() =~= seq![current] + oldr.reverse());
                    assert(bfs_backtrack(prevmap, start, u, (f - 1) as nat).push(current)
                        + oldr.reverse() =~= bfs_backtrack(prevmap, start, u, (f - 1) as nat) + (
                    seq![current] + oldr.reverse()));
                }
                rpath.push(current);
                current = u;
            },
            None => {
                // cannot happen: every visited node but the start has a
                // recorded predecessor
                proof {
                    assert(false);
                }
                return Vec::new();
            },
        }
    }
    proof {
        assert(bfs_backtrack(
            prevmap,
            start,
            current,
            (total - rpath@.len()) as nat,
        ) == seq![start]);
    }
    let ghost rbase = rpath@;
    rpath.push(start);

    // reverse the backwards chain into start-to-goal order
    let n = rpath.len();
    let mut path: Vec<Node> = Vec::new();
    let mut i: usize = 0;
    while i < n
        invariant
            n == rpath@.len(),
            i <= n,
            path@.len() == i,
            forall|j: int| 0 <= j < i ==> path@[j] == rpath@[n - 1 - j],
        decreases n - i,
    {
        path.push(rpath[n - 1 - i]);
        i = i + 1;
    }

    proof {
        assert(path@.len() == dgoal + 1);
        assert(path@[0] == start);
        assert(path@[path@.len() - 1] == goal);
        assert forall|j: int| 0 <= j < path@.len() - 1 implies #[trigger] g.edge(
            path@[j],
            path@[j + 1],
        ) by {
            assert(path@[j] == rpath@[n - 1 - j]);
            assert(path@[j + 1] == rpath@[n - 1 - (j + 1)]);
            assert(g.edge(rpath@[(n - 2 - j) + 1], rpath@[n - 2 - j]));
        }
        assert(is_path(g, path@, start, goal));
        assert(path@.no_duplicates()) by {
            assert forall|a: int, b: int|
                0 <= a < path@.len() && 0 <= b < path@.len() && a != b implies path@[a]
                != path@[b] by {
                assert(dist[rpath@[n - 1 - a]] == dgoal - (n - 1 - a));
                assert(dist[rpath@[n - 1 - b]] == dgoal - (n - 1 - b));
            }
        }
        // the reversal spells out the backtracked route itself
        assert(path@ =~= seq![start] + rbase.reverse());
    }
    path
}

/// Breadth-first search for a hop-shortest path from `start` to `goal`:
/// returns exactly the route that `spec_bfs_path` names.
///
/// Nodes are explored in first-in, first-out order; each node is enqueued at
/// most once, and neighbors are tried in the adjacency-list order, so ties
/// among equally short paths are broken by that fixed order. The result is
/// `[start]` when `start == goal`, a hop-shortest walk from `start` to
/// `goal` when one exists, and the empty vector when none does (for
/// instance, when `goal` is a Wall cell, which no adjacency list mentions,
/// or a cell outside the grid).
#[verifier::rlimit(100)]
pub fn bfs_path(graph: &Graph, start: Node, goal: Node) -> (path: Vec<Node>)
    requires
        graph.wf(),
    ensures
        path@ == spec_bfs_path(*graph, start, goal),
        (path@.len() != 0) <==> (exists|p: Seq<Node>| is_path(*graph, p, start, goal)),
        path@.len() != 0 ==> is_path(*graph, path@, start, goal),
        path@.len() != 0 ==> path@.no_duplicates(),
        forall|p: Seq<Node>| #[trigger] is_path(*graph, p, start, goal) ==> p.len() >= path@.len(),
        start == goal ==> path@ == seq![start],
{
    let g = graph;
    let w = g.width;
    let h = g.height;
    if start.0 == goal.0 && start.1 == goal.1 {
        let mut path: Vec<Node> = Vec::new();
        path.push(start);
        proof {
            assert(path@ =~= seq![start]);
            assert(is_path(*g, path@, start, goal));
        }
        return path;
    }
    if start.0 >= w || start.1 >= h || goal.0 >= w || goal.1 >= h {
        let path: Vec<Node> = Vec::new();
        proof {
            lemma_no_path_outside(*g, start, goal);
            assert(spec_bfs_path(*g, start, goal) == Seq::<Node>::empty());
            assert(path@ =~= Seq::<Node>::empty());
        }
        return path;
    }
    proof {
        assert(g.node_in_bounds(start));
        assert(g.node_in_bounds(goal));
    }
    let mut visited: Vec<Vec<bool>> = filled_grid(w, h, false);
    let mut prev: Vec<Vec<Option<Node>>> = filled_grid(w, h, None);
    let mut queue: Vec<Node> = Vec::new();
    queue.push(start);
    proof {
        assert(visited@[start.1 as int].len() == w);
    }
    visited[start.1][start.0] = true;
    let ghost mut dist: Map<Node, nat> = Map::empty().insert(start, 0nat);
    let ghost mut visset: Set<Node> = Set::empty().insert(start);
    let ghost mut prevmap: Map<Node, Node> = Map::empty();
    let ghost total: nat = (g.width * g.height) as nat;
    let mut head: usize = 0;
    let mut found = false;

    proof {
        assert(has_path_n(*g, start, start, 0nat));
        assert(queue@ =~= seq![start]);
        assert(1 <= w * h) by (nonlinear_arith)
            requires
                1 <= w,
                1 <= h,
        ;
        assert forall|n: Node| #[trigger] visset.contains(n) == queue@.contains(n) by {
            if n == start {
                assert(queue@[0] == start);
                assert(queue@.contains(start));
            } else {
                assert(forall|i: int| 0 <= i < queue@.len() ==> queue@[i] != n);
                assert(!queue@.contains(n));
            }
        }
        assert forall|n: Node| g.node_in_bounds(n) implies (visited@[n.1 as int][n.0 as int]
            == queue@.contains(n)) by {
            if n == start {
                assert(queue@[0] == start);
                assert(queue@.contains(start));
            } else {
                assert(forall|i: int| 0 <= i < queue@.len() ==> queue@[i] != n);
                assert(!queue@.contains(n));
            }
        }
    }

    while head < queue.len()
        invariant_except_break
            !found,
        invariant
            g.wf(),
            w == g.width,
            h == g.height,
            graph == g,
            g.node_in_bounds(start),
            g.node_in_bounds(goal),
            bfs_inv(*g, start, queue@, head as int, dist),
            queue@.len() <= w * h,
            visited@.len() == h,
            forall|y: int| 0 <= y < h ==> (#[trigger] visited@[y]).len() == w,
            prev@.len() == h,
            forall|y: int| 0 <= y < h ==> (#[trigger] prev@[y]).len() == w,
            forall|n: Node|
                g.node_in_bounds(n) ==> (visited@[n.1 as int][n.0 as int] == #[trigger] queue@.contains(n)),
            forall|n: Node| #[trigger] visset.contains(n) == queue@.contains(n),
            forall|n: Node| #[trigger] prevmap.contains_key(n) ==> queue@.contains(n) && n != start,
            total == (g.width * g.height) as nat,
            bfs_search(*g, goal, seq![start], 0, Set::empty().insert(start), Map::empty(), total)
                == bfs_search(*g, goal, queue@, head as int, visset, prevmap, (total - head) as nat),
            forall|i: int|
                head <= i < queue@.len() ==> dist[#[trigger] queue@[i]] <= dist[queue@[head as int]] + 1,
            forall|i: int|
                0 <= i < queue@.len() && queue@[i] != start ==> {
                    let pv = #[trigger] prev@[queue@[i].1 as int][queue@[i].0 as int];
                    &&& pv is Some
                    &&& queue@.contains(pv->Some_0)
                    &&& g.edge(pv->Some_0, queue@[i])
                    &&& dist[pv->Some_0] + 1 == dist[queue@[i]]
                    &&& prevmap.contains_key(queue@[i])
                    &&& prevmap[queue@[i]] == pv->Some_0
                },
            forall|i: int| 0 <= i < head ==> queue@[i] != goal,
        ensures
            g.wf(),
            bfs_inv(*g, start, queue@, head as int, dist),
            found ==> head < queue@.len() && queue@[head as int] == goal,
            !found ==> head == queue@.len(),
            forall|i: int| 0 <= i < head ==> queue@[i] != goal,
            queue@.len() <= w * h,
            total == (g.width * g.height) as nat,
            bfs_search(*g, goal, seq![start], 0, Set::empty().insert(start), Map::empty(), total)
                == bfs_search(*g, goal, queue@, head as int, visset, prevmap, (total - head) as nat),
            prev@.len() == h,
            forall|y: int| 0 <= y < h ==> (#[trigger] prev@[y]).len() == w,
            forall|i: int|
                0 <= i < queue@.len() && queue@[i] != start ==> {
                    let pv = #[trigger] prev@[queue@[i].1 as int][queue@[i].0 as int];
                    &&& pv is Some
                    &&& queue@.contains(pv->Some_0)
                    &&& g.edge(pv->Some_0, queue@[i])
                    &&& dist[pv->Some_0] + 1 == dist[queue@[i]]
                    &&& prevmap.contains_key(queue@[i])
                    &&& prevmap[queue@[i]] == pv->Some_0
                },
        decreases w * h - head,
    {
        let node = queue[head];
        if node.0 == goal.0 && node.1 == goal.1 {
            found = true;
            break;
        }
        let ghost dnode = dist[node];
        let ghost q_entry = queue@;
        let ghost vis_entry = visset;
        let ghost prev_entry = prevmap;
        let nbs = g.neighbors(node.0, node.1);
        let nlen = nbs.len();
        let mut k: usize = 0;
        proof {
            assert(nbs@.skip(0) =~= nbs@);
        }
        while k < nlen
            invariant
                g.wf(),
                w == g.width,
                h == g.height,
                g.node_in_bounds(goal),
                head < queue@.len(),
                queue@[head as int] == node,
                node != goal,
                nbs@ == g.adj_of(node.0 as int, node.1 as int),
                nlen == nbs@.len(),
                k <= nlen,
                dnode == dist[node],
                bfs_inv(*g, start, queue@, head as int, dist),
                queue@.len() <= w * h,
                visited@.len() == h,
                forall|y: int| 0 <= y < h ==> (#[trigger] visited@[y]).len() == w,
                prev@.len() == h,
                forall|y: int| 0 <= y < h ==> (#[trigger] prev@[y]).len() == w,
                forall|n: Node|
                    g.node_in_bounds(n) ==> (visited@[n.1 as int][n.0 as int] == #[trigger] queue@.contains(n)),
                forall|n: Node| #[trigger] visset.contains(n) == queue@.contains(n),
                forall|n: Node| #[trigger] prevmap.contains_key(n) ==> queue@.contains(n) && n != start,
                total == (g.width * g.height) as nat,
                head < q_entry.len(),
                q_entry.len() <= total,
                q_entry[head as int] == node,
                bfs_search(*g, goal, seq![start], 0, Set::empty().insert(start), Map::empty(), total)
                    == bfs_search(*g, goal, q_entry, head as int, vis_entry, prev_entry, (total - head) as nat),
                bfs_expand(node, nbs@.skip(k as int), queue@, visset, prevmap)
                    == bfs_expand(node, nbs@, q_entry, vis_entry, prev_entry),
                forall|i: int|
                    head <= i < queue@.len() ==> dist[#[trigger] queue@[i]] <= dist[queue@[head as int]] + 1,
                forall|i: int|
                    0 <= i < queue@.len() && queue@[i] != start ==> {
                        let pv = #[trigger] prev@[queue@[i].1 as int][queue@[i].0 as int];
                        &&& pv is Some
                        &&& queue@.contains(pv->Some_0)
                        &&& g.edge(pv->Some_0, queue@[i])
                        &&& dist[pv->Some_0] + 1 == dist[queue@[i]]
                        &&& prevmap.contains_key(queue@[i])
                        &&& prevmap[queue@[i]] == pv->Some_0
                    },
                forall|i: int| 0 <= i < head ==> queue@[i] != goal,
                forall|j: int|
                    0 <= j < k ==> {
                        let m = #[trigger] g.adj_of(node.0 as int, node.1 as int)[j];
                        queue@.contains(m) && dist[m] <= dist[node] + 1
                    },
            decreases nlen - k,
        {
            let m = nbs[k];
            proof {
                assert(g.node_in_bounds(g.adj_of(node.0 as int, node.1 as int)[k as int]));
                assert(visited@[m.1 as int].len() == w);
            }
            if !visited[m.1][m.0] {
                proof {
                    assert(!queue@.contains(m));
                }
                let ghost oldvis = visited@;
                let ghost oldprev = prev@;
                let ghost oldq = queue@;
                visited[m.1][m.0] = true;
                proof {
                    assert(prev@[m.1 as int].len() == w);
                }
                prev[m.1][m.0] = Some(node);
                queue.push(m);
                proof {
                    dist = dist.insert(m, (dnode + 1) as nat);
                    let vs_old = visset;
                    let pm_old = prevmap;
                    visset = visset.insert(m);
                    prevmap = prevmap.insert(m, node);
                    assert(oldq[head as int] == node);
                    assert(oldq.contains(node));
                    assert(oldq.contains(start));
                    assert(m != start);
                    // the push keeps the queue duplicate-free
                    assert(queue@.no_duplicates()) by {
                        assert(forall|i: int| 0 <= i < oldq.len() ==> queue@[i] == oldq[i]);
                        assert(queue@[oldq.len() as int] == m);
                        assert(forall|i: int| 0 <= i < oldq.len() ==> queue@[i] != m);
                    }
                    // the new node has a walk one step longer than its parent's
                    assert(has_path_n(*g, start, m, dist[m])) by {
                        assert(g.edge(node, m));
                        assert(has_path_n(*g, start, node, dnode));
                    }
                    // queue membership only grows
                    assert(forall|n: Node| oldq.contains(n) ==> queue@.contains(n)) by {
                        assert(forall|i: int| 0 <= i < oldq.len() ==> queue@[i] == oldq[i]);
                    }
                    assert(queue@.contains(m)) by {
                        assert(queue@[oldq.len() as int] == m);
                    }
                    assert(forall|n: Node| #[trigger] queue@.contains(n) ==> n == m || oldq.contains(n));
                    lemma_queue_len_bound(queue@, w as int, h as int);
                    // the visited grid still mirrors queue membership
                    assert forall|n: Node| g.node_in_bounds(n) implies (visited@[n.1 as int][n.0 as int]
                        == queue@.contains(n)) by {
                        if n == m {
                            assert(visited@[m.1 as int][m.0 as int] == true);
                        } else {
                            assert(visited@[n.1 as int][n.0 as int] == oldvis[n.1 as int][n.0 as int]);
                            assert(oldvis[n.1 as int][n.0 as int] == oldq.contains(n));
                        }
                    }
                    // every non-start node still records a fit predecessor
                    assert forall|i: int| 0 <= i < queue@.len() && queue@[i] != start implies {
                        let pv = #[trigger] prev@[queue@[i].1 as int][queue@[i].0 as int];
                        &&& pv is Some
                        &&& queue@.contains(pv->Some_0)
                        &&& g.edge(pv->Some_0, queue@[i])
                        &&& dist[pv->Some_0] + 1 == dist[queue@[i]]
                        &&& prevmap.contains_key(queue@[i])
                        &&& prevmap[queue@[i]] == pv->Some_0
                    } by {
                        if i < oldq.len() {
                            assert(queue@[i] == oldq[i]);
                            assert(oldq.contains(oldq[i]));
                            assert(oldq[i] != m);
                            assert(prev@[queue@[i].1 as int][queue@[i].0 as int]
                                == oldprev[queue@[i].1 as int][queue@[i].0 as int]);
                            if oldq[i] != start {
                                let pv = oldprev[oldq[i].1 as int][oldq[i].0 as int];
                                assert(oldq.contains(pv->Some_0));
                                assert(pv->Some_0 != m);
                                assert(pm_old.contains_key(oldq[i]) && pm_old[oldq[i]]
                                    == pv->Some_0);
                                assert(prevmap[queue@[i]] == pm_old[oldq[i]]);
                            }
                        } else {
                            assert(queue@[i] == m);
                            assert(prev@[m.1 as int][m.0 as int] == Some(node));
                            assert(queue@.contains(node));
                            assert(g.edge(node, m));
                            assert(prevmap[m] == node);
                        }
                    }
                    // the discovered set still mirrors queue membership
                    assert forall|n: Node| #[trigger] visset.contains(n)
                        == queue@.contains(n) by {
                        if n != m {
                            assert(vs_old.contains(n) == oldq.contains(n));
                        }
                    }
                    // the spec expansion takes the same step
                    assert(nbs@.skip(k as int)[0] == m);
                    assert(nbs@.skip(k as int).drop_first() =~= nbs@.skip(k as int + 1));
                    assert(!vs_old.contains(m));
                    assert(bfs_expand(node, nbs@.skip(k as int), oldq, vs_old, pm_old)
                        == bfs_expand(node, nbs@.skip(k as int + 1), queue@, visset, prevmap));
                }
            } else {
                // an already-visited neighbor sits in the queue no deeper
                // than one layer past the node being expanded
                proof {
                    assert(queue@.contains(m));
                    let idx = choose|idx: int| 0 <= idx < queue@.len() && queue@[idx] == m;
                    if idx >= head {
                        assert(dist[queue@[idx]] <= dist[queue@[head as int]] + 1);
                    } else {
                        assert(dist[queue@[idx]] <= dist[queue@[head as int]]);
                    }
                    assert(dist[m] <= dist[node] + 1);
                    // the spec expansion skips the already-discovered neighbor
                    assert(nbs@.skip(k as int)[0] == m);
                    assert(nbs@.skip(k as int).drop_first() =~= nbs@.skip(k as int + 1));
                    assert(visset.contains(m));
                    assert(bfs_expand(node, nbs@.skip(k as int), queue@, visset, prevmap)
                        == bfs_expand(node, nbs@.skip(k as int + 1), queue@, visset, prevmap));
                }
            }
            k = k + 1;
        }
        proof {
            // the expansion finished: one pop of the spec search was taken
            assert(nbs@.skip(nlen as int) =~= Seq::<Node>::empty());
            assert(bfs_expand(node, nbs@, q_entry, vis_entry, prev_entry) == (
                queue@,
                visset,
                prevmap,
            ));
            assert(bfs_search(
                *g,
                goal,
                q_entry,
                head as int,
                vis_entry,
                prev_entry,
                (total - head) as nat,
            ) == bfs_search(
                *g,
                goal,
                queue@,
                head as int + 1,
                visset,
                prevmap,
                (total - (head + 1)) as nat,
            ));
        }
        head = head + 1;
    }

    if !found {
        // the queue was exhausted without meeting the goal: no walk reaches it
        proof {
            assert(!(exists|p: Seq<Node>| is_path(*graph, p, start, goal))) by {
                if exists|p: Seq<Node>| is_path(*graph, p, start, goal) {
                    let p = choose|p: Seq<Node>| is_path(*graph, p, start, goal);
                    lemma_is_path_to_has_path_n(*graph, p, start, goal);
                    lemma_bfs_cut(
                        *graph,
                        start,
                        queue@,
                        head as int,
                        dist,
                        goal,
                        (p.len() - 1) as nat,
                    );
                    let i = choose|i: int| 0 <= i < head && queue@[i] == goal;
                    assert(false);
                }
            }
            assert(start != goal) by {
                assert(is_path(*graph, seq![start], start, start));
            }
            assert(bfs_search(
                *g,
                goal,
                queue@,
                head as int,
                visset,
                prevmap,
                (total - head) as nat,
            ) == (false, prevmap));
            assert(spec_bfs_path(*graph, start, goal) == Seq::<Node>::empty());
        }
        let path: Vec<Node> = Vec::new();
        proof {
            assert(path@ =~= Seq::<Node>::empty());
        }
        return path;
    }

    // the goal was discovered at distance `dist[goal]`; walk the recorded
    // predecessors back to the start
    let ghost dgoal = dist[goal];
    proof {
        // no strictly shorter walk reaches the goal
        assert forall|p: Seq<Node>| #[trigger] is_path(*graph, p, start, goal) implies p.len()
            >= dgoal + 1 by {
            lemma_is_path_to_has_path_n(*graph, p, start, goal);
            if p.len() - 1 < dgoal {
                lemma_bfs_cut(*graph, start, queue@, head as int, dist, goal, (p.len() - 1) as nat);
                let i = choose|i: int| 0 <= i < head && queue@[i] == goal;
                assert(queue@[head as int] == goal);
                assert(false);
            }
        }
    }

    let path = reconstruct_path(
        &prev,
        start,
        goal,
        Ghost(*g),
        Ghost(queue@),
        Ghost(head as int),
        Ghost(dist),
        Ghost(prevmap),
        Ghost(total),
    );
    proof {
        // the exec search stopped exactly where the spec-level search does
        assert(head < queue@.len() <= total);
        assert(bfs_search(*g, goal, queue@, head as int, visset, prevmap, (total - head) as nat)
            == (true, prevmap));
        assert(spec_bfs_path(*g, start, goal) == bfs_backtrack(prevmap, start, goal, total));
    }
    path
}

} // verus!
