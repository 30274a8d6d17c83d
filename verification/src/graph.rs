use vstd::prelude::*;

use crate::map::GridMap;

verus! {

/// The visibility graph: for every Free cell of the map, the sequence of its
/// Free orthogonal neighbors in the fixed direction order up, down, left,
/// right. Wall cells carry an empty adjacency list. `adj[y][x]` is the list
/// for the cell in column `x`, row `y`; a node is an `(x, y)` pair.
pub struct Graph {
    pub width: usize,
    pub height: usize,
    pub adj: Vec<Vec<Vec<(usize, usize)>>>,
}

/// The neighbor list `(x, y)` would get if its own cell is Free and the
/// candidate neighbor is an in-bounds Free cell, in the order up, down,
/// left, right.
pub open spec fn spec_neighbors(m: GridMap, x: int, y: int) -> Seq<(usize, usize)> {
    if !m.free_at(x, y) {
        Seq::empty()
    } else {
        neighbor_entry(m, x, y - 1) + neighbor_entry(m, x, y + 1) + neighbor_entry(m, x - 1, y)
            + neighbor_entry(m, x + 1, y)
    }
}

/// A one-element sequence holding `(x, y)` if that cell is in bounds and
/// Free, else the empty sequence.
pub open spec fn neighbor_entry(m: GridMap, x: int, y: int) -> Seq<(usize, usize)> {
    if m.in_bounds(x, y) && m.free_at(x, y) {
        seq![(x as usize, y as usize)]
    } else {
        Seq::empty()
    }
}

impl Graph {
    pub open spec fn wf(self) -> bool {
        &&& 1 <= self.width <= 4096
        &&& 1 <= self.height <= 4096
        &&& self.adj.len() == self.height
        &&& forall|y: int|
            0 <= y < self.height ==> #[trigger] self.adj[y].len() == self.width
        &&& forall|y: int, x: int, k: int|
            0 <= y < self.height && 0 <= x < self.width && 0 <= k < self.adj[y][x].len()
                ==> self.node_in_bounds(#[trigger] self.adj[y][x][k])
    }

    pub open spec fn node_in_bounds(self, n: (usize, usize)) -> bool {
        n.0 < self.width && n.1 < self.height
    }

    /// The adjacency list of node `(x, y)`.
    pub open spec fn adj_of(self, x: int, y: int) -> Seq<(usize, usize)> {
        self.adj[y][x]@
    }

    /// A directed edge from `a` to `b`: `b` stands in `a`'s adjacency list.
    pub open spec fn edge(self, a: (usize, usize), b: (usize, usize)) -> bool {
        self.node_in_bounds(a) && self.adj_of(a.0 as int, a.1 as int).contains(b)
    }

    /// The executable adjacency lookup.
    pub fn neighbors(&self, x: usize, y: usize) -> (nb: &Vec<(usize, usize)>)
        requires
            self.wf(),
            x < self.width,
            y < self.height,
        ensures
            nb@ == self.adj_of(x as int, y as int),
    {
        proof {
            assert(self.adj[y as int].len() == self.width);
        }
        &self.adj[y][x]
    }
}

/// The graph is the visibility graph of `m`: same dimensions, and every
/// cell's adjacency list is exactly its Free-neighbor list.
pub open spec fn graph_matches_map(g: Graph, m: GridMap) -> bool {
    &&& g.width == m.spec_width()
    &&& g.height == m.spec_height()
    &&& forall|x: int, y: int|
        m.in_bounds(x, y) ==> #[trigger] g.adj_of(x, y) == spec_neighbors(m, x, y)
}

/// Every cell that an adjacency list mentions is an in-bounds Free cell.
pub proof fn lemma_neighbor_listed_free(m: GridMap, x: int, y: int, c: (usize, usize))
    requires
        spec_neighbors(m, x, y).contains(c),
    ensures
        m.in_bounds(c.0 as int, c.1 as int),
        m.free_at(c.0 as int, c.1 as int),
{
    let s = spec_neighbors(m, x, y);
    let i = choose|i: int| 0 <= i < s.len() && s[i] == c;
}

/// Builds the visibility graph of a map: every Free cell maps to the
/// sequence of its in-bounds Free orthogonal neighbors in the order up,
/// down, left, right; Wall cells map to the empty sequence.
pub fn create_graph(map: &GridMap) -> (g: Graph)
    requires
        map.wf(),
    ensures
        g.wf(),
        graph_matches_map(g, *map),
        g.width == map.spec_width(),
        g.height == map.spec_height(),
        forall|x: int, y: int|
            map.in_bounds(x, y) ==> #[trigger] g.adj_of(x, y) == spec_neighbors(*map, x, y),
{
    let w = map.width();
    let h = map.height();
    let mut adj: Vec<Vec<Vec<(usize, usize)>>> = Vec::new();
    for y in 0..h
        invariant
            map.wf(),
            w == map.spec_width(),
            h == map.spec_height(),
            adj.len() == y,
            forall|j: int| 0 <= j < y ==> #[trigger] adj[j].len() == w,
            forall|j: int, i: int|
                0 <= j < y && 0 <= i < w ==> #[trigger] adj[j][i]@ == spec_neighbors(*map, i, j),
    {
        let mut row: Vec<Vec<(usize, usize)>> = Vec::new();
        for x in 0..w
            invariant
                map.wf(),
                w == map.spec_width(),
                h == map.spec_height(),
                y < h,
                row.len() == x,
                forall|i: int|
                    0 <= i < x ==> #[trigger] row[i]@ == spec_neighbors(*map, i, y as int),
        {
            let mut nb: Vec<(usize, usize)> = Vec::new();
            if map.is_free(x, y) {
                if y >= 1 && map.is_free(x, y - 1) {
                    nb.push((x, y - 1));
                }
                if y + 1 < h && map.is_free(x, y + 1) {
                    nb.push((x, y + 1));
                }
                if x >= 1 && map.is_free(x - 1, y) {
                    nb.push((x - 1, y));
                }
                if x + 1 < w && map.is_free(x + 1, y) {
                    nb.push((x + 1, y));
                }
            }
            proof {
                assert(nb@ =~= spec_neighbors(*map, x as int, y as int));
            }
            row.push(nb);
        }
        adj.push(row);
    }
    let g = Graph { width: w, height: h, adj };
    proof {
        assert forall|y: int, x: int, k: int|
            0 <= y < g.height && 0 <= x < g.width && 0 <= k < g.adj[y][x].len() implies g
            .node_in_bounds(#[trigger] g.adj[y][x][k]) by {
            assert(g.adj[y][x]@ == spec_neighbors(*map, x, y));
        }
    }
    g
}

} // verus!
