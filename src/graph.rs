use vstd::prelude::*;
use terrain_graph::undirected::UndirectedGraph;

verus! {

#[verifier::external_type_specification]
#[verifier::external_body]
pub struct ExUndirectedGraph(UndirectedGraph);

/// The adjacency lists of an undirected graph: for each vertex, its neighbors
/// in the order in which the edges were added.
pub uninterp spec fn adjacency(g: UndirectedGraph) -> Seq<Seq<usize>>;

/// The number of edges that were added to an undirected graph.
pub uninterp spec fn edge_count(g: UndirectedGraph) -> nat;

/// The adjacency lists after an edge `v`-`w` is added: `w` is appended to the
/// list of `v`, then `v` to the list of `w`.
pub open spec fn with_edge(a: Seq<Seq<usize>>, v: int, w: int) -> Seq<Seq<usize>> {
    let a1 = a.update(v, a[v].push(w as usize));
    a1.update(w, a1[w].push(v as usize))
}

/// Relies on UndirectedGraph::new: `order` vertices, each with an empty list.
pub assume_specification[ UndirectedGraph::new ](order: usize) -> (g: UndirectedGraph)
    ensures
        adjacency(g) == Seq::new(order as nat, |i: int| Seq::<usize>::empty()),
        edge_count(g) == 0,
;

/// Relies on UndirectedGraph::add_edge: it pushes onto both adjacency lists
/// (indexing panics out of range) and counts the edge.
pub assume_specification[ UndirectedGraph::add_edge ](g: &mut UndirectedGraph, v: usize, w: usize)
    requires
        v < adjacency(*old(g)).len(),
        w < adjacency(*old(g)).len(),
        edge_count(*old(g)) < usize::MAX,
    ensures
        adjacency(*final(g)) == with_edge(adjacency(*old(g)), v as int, w as int),
        edge_count(*final(g)) == edge_count(*old(g)) + 1,
;

/// Relies on UndirectedGraph::neighbors_of: the adjacency list of `v`
/// (indexing panics out of range).
pub assume_specification[ UndirectedGraph::neighbors_of ](g: &UndirectedGraph, v: usize) -> (r: &Vec<usize>)
    requires
        v < adjacency(*g).len(),
    ensures
        r@ == adjacency(*g)[v as int],
;

/// Relies on UndirectedGraph::order: the number of vertices.
pub assume_specification[ UndirectedGraph::order ](g: &UndirectedGraph) -> (r: usize)
    ensures
        r == adjacency(*g).len(),
;

/// The adjacency lists after triangle `k` (vertices `t[3k]`, `t[3k+1]`,
/// `t[3k+2]`) contributes its edges: each side is added once, from the
/// triangle whose listing runs from the lower to the higher index.
pub open spec fn with_triangle(a: Seq<Seq<usize>>, t: Seq<usize>, k: int) -> Seq<Seq<usize>> {
    let x = t[3 * k] as int;
    let y = t[3 * k + 1] as int;
    let z = t[3 * k + 2] as int;
    let a1 = if x < y { with_edge(a, x, y) } else { a };
    let a2 = if y < z { with_edge(a1, y, z) } else { a1 };
    if z < x { with_edge(a2, z, x) } else { a2 }
}

/// The adjacency lists of `order` vertices after the first `k` triangles.
pub open spec fn triangles_adjacency(order: nat, t: Seq<usize>, k: nat) -> Seq<Seq<usize>>
    decreases k,
{
    if k == 0 {
        Seq::new(order, |i: int| Seq::<usize>::empty())
    } else {
        with_triangle(triangles_adjacency(order, t, (k - 1) as nat), t, k - 1)
    }
}

proof fn lemma_triangles_len(order: nat, t: Seq<usize>, k: nat)
    requires
        3 * k <= t.len(),
        forall|i: int| 0 <= i < t.len() ==> t[i] < order,
    ensures
        triangles_adjacency(order, t, k).len() == order,
    decreases k,
{
    if k > 0 {
        lemma_triangles_len(order, t, (k - 1) as nat);
    }
}

/// Builds the undirected graph of a triangulation: `triangles` lists three
/// vertex indices per triangle (a trailing partial triangle is ignored), and
/// every side shared by two triangles is added once.
pub fn graph_from_triangles(order: usize, triangles: &Vec<usize>) -> (g: UndirectedGraph)
    requires
        forall|i: int| 0 <= i < triangles@.len() ==> triangles@[i] < order,
    ensures
        adjacency(g) == triangles_adjacency(order as nat, triangles@, (triangles@.len() / 3) as nat),
{
    let mut g = UndirectedGraph::new(order);
    let n: usize = triangles.len() / 3;
    let mut k: usize = 0;
    assert(3 * n <= triangles@.len()) by (nonlinear_arith)
        requires n == triangles@.len() / 3;
    while k < n
        invariant
            n == triangles@.len() / 3,
            3 * n <= triangles@.len() <= usize::MAX,
            k <= n,
            forall|i: int| 0 <= i < triangles@.len() ==> triangles@[i] < order,
            adjacency(g) == triangles_adjacency(order as nat, triangles@, k as nat),
            adjacency(g).len() == order,
            edge_count(g) <= 3 * k,
        decreases n - k,
    {
        let a: usize = triangles[3 * k];
        let b: usize = triangles[3 * k + 1];
        let c: usize = triangles[3 * k + 2];
        if a < b {
            g.add_edge(a, b);
        }
        if b < c {
            g.add_edge(b, c);
        }
        if c < a {
            g.add_edge(c, a);
        }
        proof {
            lemma_triangles_len(order as nat, triangles@, (k + 1) as nat);
        }
        k = k + 1;
    }
    g
}

/// Whether every adjacency list of `g` names vertices of `g` only.
pub fn adj_in_range_check(g: &UndirectedGraph) -> (r: bool)
    ensures
        r == crate::growth::adj_in_range(adjacency(*g)),
{
    let n: usize = g.order();
    let mut v: usize = 0;
    while v < n
        invariant
            n == adjacency(*g).len(),
            v <= n,
            forall|i: int, k: int| 0 <= i < v && 0 <= k < adjacency(*g)[i].len() ==> adjacency(*g)[i][k] < n,
        decreases n - v,
    {
        let nbrs: &Vec<usize> = g.neighbors_of(v);
        let mut k: usize = 0;
        while k < nbrs.len()
            invariant
                n == adjacency(*g).len(),
                v < n,
                nbrs@ == adjacency(*g)[v as int],
                k <= nbrs@.len(),
                forall|i: int, j: int| 0 <= i < v && 0 <= j < adjacency(*g)[i].len() ==> adjacency(*g)[i][j] < n,
                forall|j: int| 0 <= j < k ==> adjacency(*g)[v as int][j] < n,
            decreases nbrs@.len() - k,
        {
            if nbrs[k] >= n {
                return false;
            }
            k = k + 1;
        }
        v = v + 1;
    }
    true
}

} // verus!
