//! Routes through a weighted graph given as adjacency rows, and the search
//! that finds a cheapest one.

use vstd::prelude::*;
use crate::network::{Link, Node};

verus! {

/// Adjacency rows as plain numbers: row `u` lists `(cost, target)` for every
/// link that leaves node `u`.
pub type Rows = Seq<Seq<(int, int)>>;

/// The rows of a list of nodes.
pub open spec fn link_rows(nodes: Seq<Node>) -> Rows {
    Seq::new(nodes.len(), |u: int| Seq::new(nodes[u].adjacent@.len(), |k: int| (
        nodes[u].adjacent@[k].cost as int,
        nodes[u].adjacent@[k].node as int,
    )))
}

/// Sum of the costs in the first `k` entries of a row.
pub open spec fn row_cost(row: Seq<(int, int)>, k: int) -> int
    decreases k,
{
    if k <= 0 {
        0
    } else {
        row_cost(row, k - 1) + row[k - 1].0
    }
}

/// Sum of the costs of all links in the first `u` rows.
pub open spec fn total_cost(rows: Rows, u: int) -> int
    decreases u,
{
    if u <= 0 {
        0
    } else {
        total_cost(rows, u - 1) + row_cost(rows[u - 1], rows[u - 1].len() as int)
    }
}

/// Link `k` of node `u` has a cost that is not negative and points at a node
/// of the graph that no earlier link of `u` points at.
pub open spec fn link_sound(rows: Rows, u: int, k: int) -> bool {
    &&& 0 <= rows[u][k].0
    &&& 0 <= rows[u][k].1 < rows.len()
    &&& forall|j: int| 0 <= j < k ==> (#[trigger] rows[u][j]).1 != rows[u][k].1
}

/// Every link points at a node of the graph and has a cost that is not
/// negative, and no node has two links to the same target.
pub open spec fn rows_sound(rows: Rows) -> bool {
    forall|u: int, k: int| 0 <= u < rows.len() && 0 <= k < rows[u].len() ==> #[trigger] link_sound(rows, u, k)
}

/// In a row without negative costs the summed cost grows with the prefix.
pub proof fn lemma_row_cost_grows(row: Seq<(int, int)>, k: int, m: int)
    requires
        0 <= k <= m <= row.len(),
        forall|j: int| 0 <= j < row.len() ==> 0 <= (#[trigger] row[j]).0,
    ensures
        row_cost(row, k) <= row_cost(row, m),
    decreases m,
{
    if k < m {
        lemma_row_cost_grows(row, k, m - 1);
    }
}

/// In a sound graph the summed cost grows with the number of rows counted.
pub proof fn lemma_total_cost_grows(rows: Rows, u: int, n: int)
    requires
        0 <= u <= n <= rows.len(),
        rows_sound(rows),
    ensures
        total_cost(rows, u) <= total_cost(rows, n),
    decreases n,
{
    if u < n {
        lemma_total_cost_grows(rows, u, n - 1);
        let row = rows[n - 1];
        assert forall|j: int| 0 <= j < row.len() implies 0 <= (#[trigger] row[j]).0 by {
            assert(link_sound(rows, n - 1, j));
        }
        lemma_row_cost_grows(row, 0, row.len() as int);
    }
}

/// The graph is one that the search can walk with 32-bit costs: it is sound
/// and all its link costs together stay below `i32::MAX`.
pub open spec fn searchable(rows: Rows) -> bool {
    rows_sound(rows) && total_cost(rows, rows.len() as int) < i32::MAX
}

/// Node `u` has a link to node `v`.
pub open spec fn joined(rows: Rows, u: int, v: int) -> bool {
    0 <= u < rows.len() && exists|k: int| 0 <= k < rows[u].len() && (#[trigger] rows[u][k]).1 == v
}

/// The cost of the link from `u` to `v`, where there is one.
pub open spec fn hop_cost(rows: Rows, u: int, v: int) -> int {
    let k = choose|k: int| 0 <= k < rows[u].len() && (#[trigger] rows[u][k]).1 == v;
    rows[u][k].0
}

/// `path` leads from `start` to `target` along links of the graph.
pub open spec fn is_route(rows: Rows, path: Seq<usize>, start: int, target: int) -> bool {
    &&& path.len() > 0
    &&& path[0] == start
    &&& path.last() == target
    &&& forall|i: int| 0 <= i < path.len() ==> (#[trigger] path[i]) < rows.len()
    &&& forall|i: int| 0 <= i < path.len() - 1 ==> joined(rows, #[trigger] path[i] as int, path[i + 1] as int)
}

/// The summed cost of the hops of `path`.
pub open spec fn route_cost(rows: Rows, path: Seq<usize>) -> int
    decreases path.len(),
{
    if path.len() < 2 {
        0
    } else {
        route_cost(rows, path.drop_last()) + hop_cost(
            rows,
            path[path.len() - 2] as int,
            path.last() as int,
        )
    }
}

/// Some route leads from `start` to `target`.
pub open spec fn reachable(rows: Rows, start: int, target: int) -> bool {
    exists|path: Seq<usize>| is_route(rows, path, start, target)
}

/// No route from `start` to `target` is cheaper than `path`.
pub open spec fn cheapest(rows: Rows, path: Seq<usize>, start: int, target: int) -> bool {
    forall|other: Seq<usize>| #[trigger]
        is_route(rows, other, start, target) ==> route_cost(rows, path) <= route_cost(rows, other)
}

/// The route that the search settles on for these rows and endpoints. Among
/// equally cheap routes the choice is the search's own.
pub uninterp spec fn found_route(rows: Seq<Seq<(int, int)>>, start: int, target: int) -> Option<Seq<usize>>;

/// A search result as a plain value.
pub open spec fn route_view(found: Option<Vec<usize>>) -> Option<Seq<usize>> {
    match found {
        Some(path) => Some(path@),
        None => None,
    }
}

/// What the search promises of its result: a present result is a cheapest
/// route, an absent one means that there is no route at all.
pub open spec fn search_outcome(rows: Rows, start: int, target: int, found: Option<Seq<usize>>) -> bool {
    match found {
        Some(path) => is_route(rows, path, start, target) && cheapest(rows, path, start, target),
        None => !reachable(rows, start, target),
    }
}

/// Calls `graphsearch::Graph::search_using_index` on a graph made of the
/// given rows, each node carrying its own index as content.
///
/// Trusted, not proved: the crate documents that the call returns the best
/// path between the two indices, with the start first and the target last, or
/// nothing where no path exists; its Dijkstra loop adds 32-bit costs and
/// indexes by link targets, which the precondition keeps in bounds. The same
/// rows and endpoints always give the same path.
#[verifier::external_body]
pub(crate) fn search_using_index(nodes: &Vec<Node>, start: usize, target: usize) -> (found: Option<Vec<usize>>)
    requires
        searchable(link_rows(nodes@)),
        start < nodes@.len(),
        target < nodes@.len(),
    ensures
        route_view(found) == found_route(link_rows(nodes@), start as int, target as int),
        search_outcome(link_rows(nodes@), start as int, target as int, route_view(found)),
{
    let mut graph: Vec<graphsearch::Node<usize>> = Vec::new();
    for (index, node) in nodes.iter().enumerate() {
        let adjacent = node.adjacent.iter().map(|l: &Link| graphsearch::Vertex { cost: l.cost, node: l.node }).collect();
        graph.push(graphsearch::Node { content: index, adjacent });
    }
    graphsearch::Graph::new(graph).search_using_index(start, target).map(|path| path.into_iter().collect())
}

} // verus!
